//! Marshalling: a request's field values to an HTTP message for the calling
//! side, and an HTTP message back to field values for the serving side.

use vstd::prelude::*;
use crate::bytes::{bytes_eq, bytes_eq_ignore_case, copy_bytes};
use crate::escape::{escape, escape_segment, unescape, unescape_segment};
use crate::field::{FieldView, RequestField, fields_view};
use crate::json::{json_decode, json_encode, json_record, parse_record};
use crate::metadata::{is_param_at, Metadata, PathTemplate, Segment, SegmentView, Version, resolved_index, versions};
use crate::path::{SLASH, join, slash_free, parts_view, join_path, split_path, all_slash_free, lemma_join_injective};
use crate::placement::{Placement, PlacementView};
use crate::validate::{
    response_check, count_query_map, count_single_body, is_path_field_at, is_single_body, lemma_count_query_map_two,
    lemma_count_single_body_two, path_names, request_check, templates,
};
use crate::wire::{
    FieldValue, HttpMessage, HttpResponse, Keyed, Pair, ValueView, bytes_of, emitted, entries, entry, fallback,
    filled_parts, key_eq, key_of, lookup, pairs_view, path_field_named, query_map_index, selects,
    single_body_index, values_view,
};

verus! {

/// A per-call marshalling error. Field errors carry the field's index.
#[derive(Debug, Clone, Copy, PartialEq, Eq, Structural)]
pub enum MarshalError {
    /// No history entry serves the requested version.
    Unsupported,
    /// A path field's value is missing or would span several segments.
    InvalidPathValue(usize),
    /// A header field's value cannot be sent as a header.
    InvalidHeaderValue(usize),
    /// The path does not match the template: no route.
    PathNotMatched,
    /// A field could not be read from the message.
    FieldDecode(usize),
    /// A required header is missing.
    MissingHeader(usize),
}

/// The bytes that a header value may hold: visible ASCII, space, tab, and
/// bytes from 0x80 up.
pub open spec fn header_value_ok(v: Seq<u8>) -> bool {
    forall|i: int| 0 <= i < v.len() ==> ((v[i] >= 32 && v[i] != 127) || v[i] == 9)
}

/// Relies on `http::HeaderValue::from_bytes`, which accepts a value exactly
/// when every byte is at least 32 and not 127, or is a tab.
#[verifier::external_body]
fn header_value_accepted(v: &Vec<u8>) -> (r: bool)
    ensures
        r == header_value_ok(v@),
{
    http::HeaderValue::from_bytes(v.as_slice()).is_ok()
}

/// Whether a byte string holds no separator.
pub fn is_slash_free(b: &Vec<u8>) -> (r: bool)
    ensures
        r == slash_free(b@),
{
    let mut i: usize = 0;
    while i < b.len()
        invariant
            0 <= i <= b.len(),
            forall|k: int| 0 <= k < i ==> b@[k] != SLASH,
        decreases b.len() - i,
    {
        if b[i] == SLASH {
            return false;
        }
        i += 1;
    }
    true
}

/// Copies a list of pairs.
pub fn copy_pairs(ps: &Vec<Pair>) -> (r: Vec<Pair>)
    ensures
        pairs_view(r@) == pairs_view(ps@),
{
    let mut out: Vec<Pair> = Vec::new();
    let mut i: usize = 0;
    while i < ps.len()
        invariant
            0 <= i <= ps.len(),
            pairs_view(out@) == pairs_view(ps@).subrange(0, i as int),
        decreases ps.len() - i,
    {
        let p = Pair { name: copy_bytes(&ps[i].name), value: copy_bytes(&ps[i].value) };
        assert(p@ == ps@[i as int]@);
        let ghost before = out@;
        out.push(p);
        assert(pairs_view(out@) =~= pairs_view(before).push(p@));
        i += 1;
        assert(pairs_view(out@) =~= pairs_view(ps@).subrange(0, i as int));
    }
    assert(pairs_view(ps@).subrange(0, i as int) =~= pairs_view(ps@));
    out
}

/// Whether a value is written to the wire for this field.
fn is_emitted(f: &RequestField, v: &FieldValue) -> (r: bool)
    ensures
        r == emitted(f@, v@),
{
    match v {
        FieldValue::Bytes(b) => match &f.inner.default {
            Some(d) => !bytes_eq(d, b),
            None => true,
        },
        _ => false,
    }
}

/// Whether a field sits in the keyed placement `k`.
fn is_selected(f: &RequestField, k: Keyed) -> (r: bool)
    ensures
        r == selects(f@, k),
{
    match k {
        Keyed::Query => matches!(f.kind, Placement::Query),
        Keyed::Header => matches!(f.kind, Placement::Header(_)),
        Keyed::Body => matches!(f.kind, Placement::Body),
    }
}

/// The key a field is written under.
fn key_bytes(f: &RequestField) -> (r: Vec<u8>)
    ensures
        r@ == key_of(f@),
{
    match &f.kind {
        Placement::Header(h) => copy_bytes(h),
        _ => copy_bytes(&f.inner.name),
    }
}

/// The entries that the fields of keyed placement `k` write, in order.
pub fn collect_entries(fields: &Vec<RequestField>, values: &Vec<FieldValue>, k: Keyed) -> (r: Vec<Pair>)
    requires
        fields@.len() == values@.len(),
    ensures
        pairs_view(r@) == entries(fields_view(fields@), values_view(values@), k),
{
    let ghost fs = fields_view(fields@);
    let ghost vs = values_view(values@);
    let mut out: Vec<Pair> = Vec::new();
    let mut i: usize = 0;
    while i < fields.len()
        invariant
            0 <= i <= fields.len(),
            fields@.len() == values@.len(),
            fs == fields_view(fields@),
            vs == values_view(values@),
            pairs_view(out@) == entries(fs.subrange(0, i as int), vs.subrange(0, i as int), k),
        decreases fields.len() - i,
    {
        proof {
            let f2 = fs.subrange(0, i as int + 1);
            let v2 = vs.subrange(0, i as int + 1);
            assert(f2.drop_last() =~= fs.subrange(0, i as int));
            assert(v2.drop_last() =~= vs.subrange(0, i as int));
            assert(f2.last() == fields@[i as int]@);
            assert(v2.last() == values@[i as int]@);
        }
        if is_selected(&fields[i], k) && is_emitted(&fields[i], &values[i]) {
            let key = key_bytes(&fields[i]);
            let value = match &values[i] {
                FieldValue::Bytes(b) => copy_bytes(b),
                _ => Vec::new(),
            };
            let ghost before = pairs_view(out@);
            out.push(Pair { name: key, value });
            assert(pairs_view(out@) =~= before + entry(fs[i as int], vs[i as int], k));
        } else {
            assert(pairs_view(out@) =~= pairs_view(out@) + entry(fs[i as int], vs[i as int], k));
        }
        i += 1;
    }
    assert(fs.subrange(0, i as int) =~= fs);
    assert(vs.subrange(0, i as int) =~= vs);
    out
}

/// Whether two keys match under the comparison of placement `k`.
fn keys_match(a: &Vec<u8>, b: &Vec<u8>, k: Keyed) -> (r: bool)
    ensures
        r == key_eq(a@, b@, k),
{
    match k {
        Keyed::Header => bytes_eq_ignore_case(a, b),
        _ => bytes_eq(a, b),
    }
}

/// The value of the first entry whose key matches `key`.
pub fn lookup_entry(ps: &Vec<Pair>, key: &Vec<u8>, k: Keyed) -> (r: Option<Vec<u8>>)
    ensures
        match r {
            Some(v) => lookup(pairs_view(ps@), key@, k) == Some(v@),
            None => lookup(pairs_view(ps@), key@, k) is None,
        },
{
    let ghost pv = pairs_view(ps@);
    let mut i: usize = 0;
    while i < ps.len()
        invariant
            0 <= i <= ps.len(),
            pv == pairs_view(ps@),
            lookup(pv.subrange(0, i as int), key@, k) is None,
        decreases ps.len() - i,
    {
        let ghost next = pv.subrange(0, i as int + 1);
        assert(next.drop_last() =~= pv.subrange(0, i as int));
        assert(next.last() == ps@[i as int]@);
        if keys_match(&ps[i].name, key, k) {
            let v = copy_bytes(&ps[i].value);
            proof {
                lemma_lookup_prefix(pv, i as int + 1, key@, k);
            }
            return Some(v);
        }
        i += 1;
    }
    assert(pv.subrange(0, i as int) =~= pv);
    None
}

/// A match in a prefix is the match of the whole list.
proof fn lemma_lookup_prefix(ps: Seq<(Seq<u8>, Seq<u8>)>, n: int, key: Seq<u8>, k: Keyed)
    requires
        0 <= n <= ps.len(),
        lookup(ps.subrange(0, n), key, k) is Some,
    ensures
        lookup(ps, key, k) == lookup(ps.subrange(0, n), key, k),
    decreases ps.len(),
{
    if n < ps.len() {
        assert(ps.drop_last().subrange(0, n) =~= ps.subrange(0, n));
        lemma_lookup_prefix(ps.drop_last(), n, key, k);
    } else {
        assert(ps.subrange(0, n) =~= ps);
    }
}

/// The value a field takes when the message does not carry it.
fn fallback_value(f: &RequestField) -> (r: Option<FieldValue>)
    ensures
        match r {
            Some(v) => fallback(f@) == Some(v@),
            None => fallback(f@) is None,
        },
{
    match &f.inner.default {
        Some(d) => Some(FieldValue::Bytes(copy_bytes(d))),
        None => if f.inner.optional {
            Some(FieldValue::Absent)
        } else {
            None
        },
    }
}

/// No two fields share a name, as in any record.
pub open spec fn names_unique(fs: Seq<FieldView>) -> bool {
    forall|i: int, j: int| 0 <= i < fs.len() && 0 <= j < fs.len() && i != j ==> fs[i].name != fs[j].name
}

/// Every placeholder of the template is filled with a single segment.
pub open spec fn path_values_ok(t: Seq<SegmentView>, fs: Seq<FieldView>, vs: Seq<ValueView>) -> bool {
    forall|j: int, n: Seq<u8>|
        #[trigger] is_param_at(t, j, n) ==> (vs[path_field_named(fs, n)] is Bytes
            && slash_free(bytes_of(vs[path_field_named(fs, n)])))
}

/// Segment `j` is a placeholder whose field value is missing or would span
/// several segments.
pub open spec fn path_value_bad(t: Seq<SegmentView>, fs: Seq<FieldView>, vs: Seq<ValueView>, j: int) -> bool {
    0 <= j < t.len() && t[j] is Param && !(vs[path_field_named(fs, t[j]->Param_0)] is Bytes && slash_free(
        bytes_of(vs[path_field_named(fs, t[j]->Param_0)]),
    ))
}

/// `i` is the field of the first placeholder, in template order, whose value
/// is bad.
pub open spec fn first_bad_path_field(t: Seq<SegmentView>, fs: Seq<FieldView>, vs: Seq<ValueView>, i: int) -> bool {
    exists|j: int|
        #[trigger] path_value_bad(t, fs, vs, j) && i == path_field_named(fs, t[j]->Param_0) && forall|q: int|
            0 <= q < j ==> !path_value_bad(t, fs, vs, q)
}

/// Field `k` is a header field whose written value cannot be sent.
pub open spec fn header_bad(fs: Seq<FieldView>, vs: Seq<ValueView>, k: int) -> bool {
    0 <= k < fs.len() && fs[k].placement is Header && emitted(fs[k], vs[k]) && !header_value_ok(bytes_of(vs[k]))
}

/// `k` is the first header field, in declaration order, whose written value
/// cannot be sent.
pub open spec fn first_bad_header(fs: Seq<FieldView>, vs: Seq<ValueView>, k: int) -> bool {
    header_bad(fs, vs, k) && forall|q: int| 0 <= q < k ==> !#[trigger] header_bad(fs, vs, q)
}

/// Every header value that is written can be sent as a header.
pub open spec fn headers_ok(fs: Seq<FieldView>, vs: Seq<ValueView>) -> bool {
    forall|k: int|
        0 <= k < fs.len() && (#[trigger] fs[k]).placement is Header && emitted(fs[k], vs[k])
            ==> header_value_ok(bytes_of(vs[k]))
}

/// The query of an encoded message: the query map's pairs, or the entries of
/// the query fields.
pub open spec fn encoded_query(fs: Seq<FieldView>, vs: Seq<ValueView>) -> Seq<(Seq<u8>, Seq<u8>)> {
    match query_map_index(fs) {
        Some(i) => match vs[i] {
            ValueView::Pairs(ps) => ps,
            _ => Seq::empty(),
        },
        None => entries(fs, vs, Keyed::Query),
    }
}

/// The body of an encoded message: the whole-body field's bytes, or the body
/// record as a JSON object, or nothing when no field is in the body.
pub open spec fn encoded_body(fs: Seq<FieldView>, vs: Seq<ValueView>) -> Seq<u8> {
    match single_body_index(fs) {
        Some(i) => bytes_of(vs[i]),
        None => if crate::validate::has_body(fs) {
            json_record(entries(fs, vs, Keyed::Body))
        } else {
            Seq::empty()
        },
    }
}

/// The sizes that the encoding of a message must fit in memory: paths and
/// the body record.
pub open spec fn sizes_fit(ts: Seq<Seq<SegmentView>>, fs: Seq<FieldView>, vs: Seq<ValueView>) -> bool {
    &&& json_record(entries(fs, vs, Keyed::Body)).len() <= usize::MAX
    &&& forall|i: int| 0 <= i < ts.len() ==> join(filled_parts(#[trigger] ts[i], fs, vs)).len() <= usize::MAX
}

proof fn lemma_path_field_named(fs: Seq<FieldView>, i: int, n: Seq<u8>)
    requires
        names_unique(fs),
        is_path_field_at(fs, i, n),
    ensures
        path_field_named(fs, n) == i,
{
    assert(0 <= i < fs.len() && fs[i].placement is Path && fs[i].name == n);
}

/// The index of the path field named `n`.
fn find_path_field(fields: &Vec<RequestField>, n: &Vec<u8>) -> (r: Option<usize>)
    requires
        names_unique(fields_view(fields@)),
    ensures
        r matches Some(i) ==> is_path_field_at(fields_view(fields@), i as int, n@) && i as int
            == path_field_named(fields_view(fields@), n@),
        r is None ==> !path_names(fields_view(fields@)).contains(n@),
{
    let ghost fs = fields_view(fields@);
    let mut i: usize = 0;
    while i < fields.len()
        invariant
            0 <= i <= fields.len(),
            fs == fields_view(fields@),
            names_unique(fs),
            forall|k: int| 0 <= k < i ==> !is_path_field_at(fs, k, n@),
        decreases fields.len() - i,
    {
        assert(fs[i as int] == fields@[i as int]@);
        if matches!(fields[i].kind, Placement::Path) && bytes_eq(&fields[i].inner.name, n) {
            proof {
                lemma_path_field_named(fs, i as int, n@);
            }
            return Some(i);
        }
        i += 1;
    }
    None
}

/// The path of a template filled with the path field values.
pub fn encode_path(t: &PathTemplate, fields: &Vec<RequestField>, values: &Vec<FieldValue>) -> (r: Result<Vec<u8>, MarshalError>)
    requires
        fields@.len() == values@.len(),
        names_unique(fields_view(fields@)),
        crate::metadata::template_wf(t@),
        path_names(fields_view(fields@)) == crate::metadata::placeholders(t@),
        join(filled_parts(t@, fields_view(fields@), values_view(values@))).len() <= usize::MAX,
    ensures
        r is Ok <==> path_values_ok(t@, fields_view(fields@), values_view(values@)),
        r matches Ok(p) ==> p@ == join(filled_parts(t@, fields_view(fields@), values_view(values@))),
        r matches Err(e) ==> e is InvalidPathValue,
        r matches Err(MarshalError::InvalidPathValue(i)) ==> first_bad_path_field(t@, fields_view(fields@), values_view(values@), i as int),
{
    let ghost fs = fields_view(fields@);
    let ghost vs = values_view(values@);
    let ghost want = filled_parts(t@, fs, vs);
    let mut parts: Vec<Vec<u8>> = Vec::new();
    let mut j: usize = 0;
    while j < t.segments.len()
        invariant
            0 <= j <= t.segments.len(),
            fields@.len() == values@.len(),
            fs == fields_view(fields@),
            vs == values_view(values@),
            names_unique(fs),
            path_names(fs) == crate::metadata::placeholders(t@),
            want == filled_parts(t@, fs, vs),
            join(want).len() <= usize::MAX,
            parts_view(parts@) == want.subrange(0, j as int),
            forall|q: int, n: Seq<u8>|
                q < j && #[trigger] is_param_at(t@, q, n) ==> (vs[path_field_named(fs, n)] is Bytes
                    && slash_free(bytes_of(vs[path_field_named(fs, n)]))),
        decreases t.segments.len() - j,
    {
        assert(t@[j as int] == t.segments@[j as int]@);
        let ghost before = parts_view(parts@);
        match &t.segments[j] {
            Segment::Literal(l) => {
                assert(want[j as int] == l@);
                parts.push(copy_bytes(l));
                assert(parts_view(parts@) =~= before.push(l@));
            },
            Segment::Param(n) => {
                assert(is_param_at(t@, j as int, n@));
                assert(crate::metadata::placeholders(t@).contains(n@));
                match find_path_field(fields, n) {
                    None => {
                        return Err(MarshalError::InvalidPathValue(0));
                    },
                    Some(i) => {
                        assert(vs[i as int] == values@[i as int]@);
                        match &values[i] {
                            FieldValue::Bytes(b) => {
                                if !is_slash_free(b) {
                                    proof {
                                        assert(path_value_bad(t@, fs, vs, j as int));
                                        assert forall|q: int| 0 <= q < j implies !path_value_bad(t@, fs, vs, q) by {
                                            if path_value_bad(t@, fs, vs, q) {
                                                assert(is_param_at(t@, q, t@[q]->Param_0));
                                            }
                                        }
                                    }
                                    return Err(MarshalError::InvalidPathValue(i));
                                }
                                assert(want[j as int] == escape(b@));
                                proof {
                                    crate::path::lemma_join_part_len(want, j as int);
                                }
                                parts.push(escape_segment(b));
                                assert(parts_view(parts@) =~= before.push(escape(b@)));
                            },
                            _ => {
                                proof {
                                    assert(path_value_bad(t@, fs, vs, j as int));
                                    assert forall|q: int| 0 <= q < j implies !path_value_bad(t@, fs, vs, q) by {
                                        if path_value_bad(t@, fs, vs, q) {
                                            assert(is_param_at(t@, q, t@[q]->Param_0));
                                        }
                                    }
                                }
                                return Err(MarshalError::InvalidPathValue(i));
                            },
                        }
                    },
                }
            },
        }
        assert(parts_view(parts@) =~= want.subrange(0, j as int + 1));
        j += 1;
    }
    assert(want.subrange(0, j as int) =~= want);
    let p = join_path(&parts);
    Ok(p)
}

/// The index of the field that takes the whole body.
fn find_single_body(fields: &Vec<RequestField>) -> (r: Option<usize>)
    requires
        count_single_body(fields_view(fields@)) <= 1,
    ensures
        match r {
            Some(i) => single_body_index(fields_view(fields@)) == Some(i as int),
            None => single_body_index(fields_view(fields@)) is None,
        },
{
    let ghost fs = fields_view(fields@);
    let mut i: usize = 0;
    while i < fields.len()
        invariant
            0 <= i <= fields.len(),
            fs == fields_view(fields@),
            count_single_body(fs) <= 1,
            forall|k: int| 0 <= k < i ==> !is_single_body((#[trigger] fs[k]).placement),
        decreases fields.len() - i,
    {
        assert(fs[i as int] == fields@[i as int]@);
        if matches!(fields[i].kind, Placement::RawBody | Placement::NewtypeBody) {
            proof {
                let j = choose|j: int| 0 <= j < fs.len() && ((#[trigger] fs[j]).placement is RawBody || fs[j].placement is NewtypeBody);
                if j > i {
                    lemma_count_single_body_two(fs, i as int, j);
                }
            }
            return Some(i);
        }
        i += 1;
    }
    None
}

/// The index of the query-map field.
fn find_query_map(fields: &Vec<RequestField>) -> (r: Option<usize>)
    requires
        count_query_map(fields_view(fields@)) <= 1,
    ensures
        match r {
            Some(i) => query_map_index(fields_view(fields@)) == Some(i as int),
            None => query_map_index(fields_view(fields@)) is None,
        },
{
    let ghost fs = fields_view(fields@);
    let mut i: usize = 0;
    while i < fields.len()
        invariant
            0 <= i <= fields.len(),
            fs == fields_view(fields@),
            count_query_map(fs) <= 1,
            forall|k: int| 0 <= k < i ==> !((#[trigger] fs[k]).placement is QueryMap),
        decreases fields.len() - i,
    {
        assert(fs[i as int] == fields@[i as int]@);
        if matches!(fields[i].kind, Placement::QueryMap) {
            proof {
                let j = choose|j: int| 0 <= j < fs.len() && (#[trigger] fs[j]).placement is QueryMap;
                if j > i {
                    lemma_count_query_map_two(fs, i as int, j);
                }
            }
            return Some(i);
        }
        i += 1;
    }
    None
}

/// Checks the header values that will be written.
fn check_headers(fields: &Vec<RequestField>, values: &Vec<FieldValue>) -> (r: Result<(), MarshalError>)
    requires
        fields@.len() == values@.len(),
    ensures
        r is Ok <==> headers_ok(fields_view(fields@), values_view(values@)),
        r matches Err(e) ==> e is InvalidHeaderValue,
        r matches Err(MarshalError::InvalidHeaderValue(k)) ==> first_bad_header(fields_view(fields@), values_view(values@), k as int),
{
    let ghost fs = fields_view(fields@);
    let ghost vs = values_view(values@);
    let mut k: usize = 0;
    while k < fields.len()
        invariant
            0 <= k <= fields.len(),
            fields@.len() == values@.len(),
            fs == fields_view(fields@),
            vs == values_view(values@),
            forall|q: int|
                0 <= q < k && (#[trigger] fs[q]).placement is Header && emitted(fs[q], vs[q])
                    ==> header_value_ok(bytes_of(vs[q])),
        decreases fields.len() - k,
    {
        assert(fs[k as int] == fields@[k as int]@);
        assert(vs[k as int] == values@[k as int]@);
        if matches!(fields[k].kind, Placement::Header(_)) && is_emitted(&fields[k], &values[k]) {
            match &values[k] {
                FieldValue::Bytes(b) => {
                    if !header_value_accepted(b) {
                        assert(header_bad(fs, vs, k as int));
                        assert forall|q: int| 0 <= q < k implies !#[trigger] header_bad(fs, vs, q) by {}
                        return Err(MarshalError::InvalidHeaderValue(k));
                    }
                },
                _ => {},
            }
        }
        k += 1;
    }
    Ok(())
}

/// `m` is the message that the values encode with template `t`.
pub open spec fn message_encodes(
    t: Seq<SegmentView>,
    fs: Seq<FieldView>,
    vs: Seq<ValueView>,
    m: HttpMessage,
) -> bool {
    &&& m.path@ == join(filled_parts(t, fs, vs))
    &&& pairs_view(m.query@) == encoded_query(fs, vs)
    &&& pairs_view(m.headers@) == entries(fs, vs, Keyed::Header)
    &&& m.body@ == encoded_body(fs, vs)
}

/// Encodes a request's field values as an HTTP message, routed by the
/// template that serves `version`.
pub fn encode_request(
    meta: &Metadata,
    fields: &Vec<RequestField>,
    values: &Vec<FieldValue>,
    version: Version,
) -> (r: Result<HttpMessage, MarshalError>)
    requires
        meta.wf(),
        fields@.len() == values@.len(),
        names_unique(fields_view(fields@)),
        request_check(meta.method, fields_view(fields@), templates(meta.history@)) is Ok,
        sizes_fit(templates(meta.history@), fields_view(fields@), values_view(values@)),
    ensures
        resolved_index(versions(meta.history@), version) is None ==> r == Err::<HttpMessage, MarshalError>(
            MarshalError::Unsupported,
        ),
        resolved_index(versions(meta.history@), version) matches Some(i) ==> {
            let t = meta.history@[i].template@;
            let fs = fields_view(fields@);
            let vs = values_view(values@);
            &&& (r is Ok <==> path_values_ok(t, fs, vs) && headers_ok(fs, vs))
            &&& (r matches Ok(m) ==> m.method == meta.method && message_encodes(t, fs, vs, m))
            &&& (r matches Err(e) ==> (e is InvalidPathValue && !path_values_ok(t, fs, vs)) || (
            e is InvalidHeaderValue && path_values_ok(t, fs, vs) && !headers_ok(fs, vs)))
            &&& (r matches Err(MarshalError::InvalidPathValue(p)) ==> first_bad_path_field(t, fs, vs, p as int))
            &&& (r matches Err(MarshalError::InvalidHeaderValue(h)) ==> first_bad_header(fs, vs, h as int))
        },
{
    let ghost fs = fields_view(fields@);
    let ghost vs = values_view(values@);
    let ti = match meta.resolve_index(version) {
        Ok(i) => i,
        Err(_) => {
            return Err(MarshalError::Unsupported);
        },
    };
    let t = &meta.history[ti].template;
    proof {
        let ts = templates(meta.history@);
        assert(ts[ti as int] == t@);
        assert(!crate::validate::path_mismatch(fs, ts));
        assert(crate::metadata::template_wf(meta.history@[ti as int].template@));
    }
    let path = match encode_path(t, fields, values) {
        Ok(p) => p,
        Err(e) => {
            return Err(e);
        },
    };
    match check_headers(fields, values) {
        Ok(()) => {},
        Err(e) => {
            return Err(e);
        },
    }
    let query = match find_query_map(fields) {
        Some(i) => {
            assert(vs[i as int] == values@[i as int]@);
            match &values[i] {
                FieldValue::Pairs(ps) => copy_pairs(ps),
                _ => {
                    let e: Vec<Pair> = Vec::new();
                    assert(pairs_view(e@) =~= Seq::<(Seq<u8>, Seq<u8>)>::empty());
                    e
                },
            }
        },
        None => collect_entries(fields, values, Keyed::Query),
    };
    let headers = collect_entries(fields, values, Keyed::Header);
    let body = match find_single_body(fields) {
        Some(i) => {
            assert(vs[i as int] == values@[i as int]@);
            match &values[i] {
                FieldValue::Bytes(b) => copy_bytes(b),
                _ => Vec::new(),
            }
        },
        None => {
            if any_body_field(fields) {
                let record = collect_entries(fields, values, Keyed::Body);
                json_encode(&record)
            } else {
                Vec::new()
            }
        },
    };
    Ok(HttpMessage { method: meta.method, path, query, headers, body })
}

/// The segments that a path splits into at its separators.
pub open spec fn split_of(path: Seq<u8>) -> Seq<Seq<u8>> {
    choose|parts: Seq<Seq<u8>>| parts.len() > 0 && all_slash_free(parts) && join(parts) == path
}

/// Whether a path splits into segments at all: it starts with a separator.
pub open spec fn splits(path: Seq<u8>) -> bool {
    path.len() > 0 && path[0] == SLASH
}

/// Whether path segments match a template: as many segments, and each
/// literal written as it stands.
pub open spec fn route_matches(t: Seq<SegmentView>, parts: Seq<Seq<u8>>) -> bool {
    &&& parts.len() == t.len()
    &&& forall|j: int| 0 <= j < t.len() && (#[trigger] t[j]) is Literal ==> parts[j] == t[j]->Literal_0
}

/// The segment index of the placeholder named `n`.
pub open spec fn param_index(t: Seq<SegmentView>, n: Seq<u8>) -> int {
    choose|j: int| is_param_at(t, j, n)
}

/// What the message gives field `f` (at index `k`), the path having split
/// into `parts` along template `t`.
pub open spec fn decode_field(
    f: FieldView,
    k: int,
    t: Seq<SegmentView>,
    parts: Seq<Seq<u8>>,
    query: Seq<(Seq<u8>, Seq<u8>)>,
    headers: Seq<(Seq<u8>, Seq<u8>)>,
    body: Seq<u8>,
) -> Result<ValueView, MarshalError> {
    match f.placement {
        PlacementView::Path => match unescape(parts[param_index(t, f.name)]) {
            Some(v) => Ok(ValueView::Bytes(v)),
            None => Err(MarshalError::FieldDecode(k as usize)),
        },
        PlacementView::Query => match lookup(query, f.name, Keyed::Query) {
            Some(v) => Ok(ValueView::Bytes(v)),
            None => match fallback(f) {
                Some(d) => Ok(d),
                None => Err(MarshalError::FieldDecode(k as usize)),
            },
        },
        PlacementView::QueryMap => Ok(ValueView::Pairs(query)),
        PlacementView::Header(h) => match lookup(headers, h, Keyed::Header) {
            Some(v) => Ok(ValueView::Bytes(v)),
            None => match fallback(f) {
                Some(d) => Ok(d),
                None => Err(MarshalError::MissingHeader(k as usize)),
            },
        },
        PlacementView::Body => match parse_record(body) {
            Some(ps) => match lookup(ps, f.name, Keyed::Body) {
                Some(v) => Ok(ValueView::Bytes(v)),
                None => match fallback(f) {
                    Some(d) => Ok(d),
                    None => Err(MarshalError::FieldDecode(k as usize)),
                },
            },
            None => Err(MarshalError::FieldDecode(k as usize)),
        },
        _ => Ok(ValueView::Bytes(body)),
    }
}

/// The field values that a message decodes to along template `t`, or the
/// first field's error.
pub open spec fn decode_fields(
    fs: Seq<FieldView>,
    t: Seq<SegmentView>,
    parts: Seq<Seq<u8>>,
    query: Seq<(Seq<u8>, Seq<u8>)>,
    headers: Seq<(Seq<u8>, Seq<u8>)>,
    body: Seq<u8>,
) -> Result<Seq<ValueView>, MarshalError>
    decreases fs.len(),
{
    if fs.len() == 0 {
        Ok(Seq::empty())
    } else {
        match decode_fields(fs.drop_last(), t, parts, query, headers, body) {
            Err(e) => Err(e),
            Ok(vs) => match decode_field(fs.last(), fs.len() - 1, t, parts, query, headers, body) {
                Err(e) => Err(e),
                Ok(v) => Ok(vs.push(v)),
            },
        }
    }
}

/// What a message decodes to along template `t`.
pub open spec fn decode_message(fs: Seq<FieldView>, t: Seq<SegmentView>, m: HttpMessage) -> Result<Seq<ValueView>, MarshalError> {
    if !splits(m.path@) || !route_matches(t, split_of(m.path@)) {
        Err(MarshalError::PathNotMatched)
    } else {
        decode_fields(fs, t, split_of(m.path@), pairs_view(m.query@), pairs_view(m.headers@), m.body@)
    }
}

/// A path's split is any list of separator-free segments that joins to it.
pub proof fn lemma_split_of(parts: Seq<Seq<u8>>, path: Seq<u8>)
    requires
        parts.len() > 0,
        all_slash_free(parts),
        join(parts) == path,
    ensures
        split_of(path) == parts,
{
    let s = split_of(path);
    assert(s.len() > 0 && all_slash_free(s) && join(s) == path);
    lemma_join_injective(s, parts);
}

/// The segment index of the placeholder named `n`.
fn find_param(t: &PathTemplate, n: &Vec<u8>) -> (r: Option<usize>)
    requires
        crate::metadata::params_unique(t@),
    ensures
        r matches Some(j) ==> j as int == param_index(t@, n@) && is_param_at(t@, j as int, n@),
        r is None ==> !crate::metadata::placeholders(t@).contains(n@),
{
    let mut j: usize = 0;
    while j < t.segments.len()
        invariant
            0 <= j <= t.segments.len(),
            crate::metadata::params_unique(t@),
            forall|q: int| 0 <= q < j ==> !is_param_at(t@, q, n@),
        decreases t.segments.len() - j,
    {
        assert(t@[j as int] == t.segments@[j as int]@);
        match &t.segments[j] {
            Segment::Param(p) => {
                if bytes_eq(p, n) {
                    assert(is_param_at(t@, j as int, n@));
                    return Some(j);
                }
            },
            Segment::Literal(_) => {},
        }
        j += 1;
    }
    None
}

/// Matches path segments against a template.
fn match_route(t: &PathTemplate, parts: &Vec<Vec<u8>>) -> (r: bool)
    ensures
        r == route_matches(t@, parts_view(parts@)),
{
    if parts.len() != t.segments.len() {
        return false;
    }
    let mut j: usize = 0;
    while j < t.segments.len()
        invariant
            0 <= j <= t.segments.len(),
            parts@.len() == t.segments@.len(),
            forall|q: int| 0 <= q < j && (#[trigger] t@[q]) is Literal ==> parts_view(parts@)[q] == t@[q]->Literal_0,
        decreases t.segments.len() - j,
    {
        assert(t@[j as int] == t.segments@[j as int]@);
        assert(parts_view(parts@)[j as int] == parts@[j as int]@);
        match &t.segments[j] {
            Segment::Literal(l) => {
                if !bytes_eq(l, &parts[j]) {
                    return false;
                }
            },
            Segment::Param(_) => {},
        }
        j += 1;
    }
    true
}

/// Whether some field is a member of the body record.
fn any_body_field(fields: &Vec<RequestField>) -> (r: bool)
    ensures
        r == crate::validate::has_body(fields_view(fields@)),
{
    let ghost fs = fields_view(fields@);
    let mut i: usize = 0;
    while i < fields.len()
        invariant
            0 <= i <= fields.len(),
            fs == fields_view(fields@),
            forall|k: int| 0 <= k < i ==> !((#[trigger] fs[k]).placement is Body),
        decreases fields.len() - i,
    {
        assert(fs[i as int] == fields@[i as int]@);
        if matches!(fields[i].kind, Placement::Body) {
            return true;
        }
        i += 1;
    }
    false
}

/// The value of a keyed field: its entry if the message has one, else its
/// fallback, else the given error.
fn keyed_value(f: &RequestField, found: Option<Vec<u8>>, missing: MarshalError) -> (r: Result<FieldValue, MarshalError>)
    ensures
        match found {
            Some(v) => r matches Ok(x) && x@ == ValueView::Bytes(v@),
            None => match fallback(f@) {
                Some(d) => r matches Ok(x) && x@ == d,
                None => r == Err::<FieldValue, MarshalError>(missing),
            },
        },
{
    match found {
        Some(v) => Ok(FieldValue::Bytes(v)),
        None => match fallback_value(f) {
            Some(d) => Ok(d),
            None => Err(missing),
        },
    }
}

/// Decodes the field values of a request from an HTTP message, along the
/// template that serves `version`.
pub fn decode_request(meta: &Metadata, fields: &Vec<RequestField>, msg: &HttpMessage, version: Version) -> (r: Result<Vec<FieldValue>, MarshalError>)
    requires
        meta.wf(),
        names_unique(fields_view(fields@)),
        request_check(meta.method, fields_view(fields@), templates(meta.history@)) is Ok,
    ensures
        resolved_index(versions(meta.history@), version) is None ==> r == Err::<Vec<FieldValue>, MarshalError>(
            MarshalError::Unsupported,
        ),
        resolved_index(versions(meta.history@), version) matches Some(i) ==> match r {
            Ok(vals) => decode_message(fields_view(fields@), meta.history@[i].template@, *msg) == Ok::<Seq<ValueView>, MarshalError>(values_view(vals@)),
            Err(e) => decode_message(fields_view(fields@), meta.history@[i].template@, *msg) == Err::<Seq<ValueView>, MarshalError>(e),
        },
{
    let ghost fs = fields_view(fields@);
    let ti = match meta.resolve_index(version) {
        Ok(i) => i,
        Err(_) => {
            return Err(MarshalError::Unsupported);
        },
    };
    let t = &meta.history[ti].template;
    let ghost ts = templates(meta.history@);
    proof {
        assert(ts[ti as int] == t@);
        assert(!crate::validate::path_mismatch(fs, ts));
        assert(crate::metadata::template_wf(meta.history@[ti as int].template@));
    }
    let parts = match split_path(&msg.path) {
        Some(p) => p,
        None => {
            return Err(MarshalError::PathNotMatched);
        },
    };
    proof {
        lemma_split_of(parts_view(parts@), msg.path@);
    }
    if !match_route(t, &parts) {
        return Err(MarshalError::PathNotMatched);
    }
    decode_values(t, &parts, fields, &msg.query, &msg.headers, &msg.body)
}

/// Decodes the field values from the parts of a message, the path having
/// split into `parts` along template `t`.
fn decode_values(
    t: &PathTemplate,
    parts: &Vec<Vec<u8>>,
    fields: &Vec<RequestField>,
    query: &Vec<Pair>,
    headers: &Vec<Pair>,
    body: &Vec<u8>,
) -> (r: Result<Vec<FieldValue>, MarshalError>)
    requires
        names_unique(fields_view(fields@)),
        crate::metadata::params_unique(t@),
        path_names(fields_view(fields@)) == crate::metadata::placeholders(t@),
        route_matches(t@, parts_view(parts@)),
    ensures
        match r {
            Ok(vals) => decode_fields(fields_view(fields@), t@, parts_view(parts@), pairs_view(query@), pairs_view(headers@), body@)
                == Ok::<Seq<ValueView>, MarshalError>(values_view(vals@)),
            Err(e) => decode_fields(fields_view(fields@), t@, parts_view(parts@), pairs_view(query@), pairs_view(headers@), body@)
                == Err::<Seq<ValueView>, MarshalError>(e),
        },
{
    let ghost fs = fields_view(fields@);
    let ghost pv = parts_view(parts@);
    let ghost qv = pairs_view(query@);
    let ghost hv = pairs_view(headers@);
    let record = if any_body_field(fields) {
        json_decode(body)
    } else {
        None
    };
    let mut out: Vec<FieldValue> = Vec::new();
    let mut k: usize = 0;
    assert(values_view(out@) =~= Seq::<ValueView>::empty());
    assert(fs.subrange(0, 0).len() == 0);
    while k < fields.len()
        invariant
            0 <= k <= fields.len(),
            fs == fields_view(fields@),
            pv == parts_view(parts@),
            qv == pairs_view(query@),
            hv == pairs_view(headers@),
            names_unique(fs),
            crate::metadata::params_unique(t@),
            path_names(fs) == crate::metadata::placeholders(t@),
            route_matches(t@, pv),
            crate::validate::has_body(fs) ==> match record {
                Some(ps) => parse_record(body@) == Some(pairs_view(ps@)),
                None => parse_record(body@) is None,
            },
            decode_fields(fs.subrange(0, k as int), t@, pv, qv, hv, body@) == Ok::<Seq<ValueView>, MarshalError>(values_view(out@)),
        decreases fields.len() - k,
    {
        let ghost sub = fs.subrange(0, k as int);
        let ghost next = fs.subrange(0, k as int + 1);
        assert(next.drop_last() =~= sub);
        assert(next.last() == fields@[k as int]@);
        assert(fs[k as int] == fields@[k as int]@);
        let f = &fields[k];
        let ghost want = decode_field(f@, k as int, t@, pv, qv, hv, body@);
        let v: Result<FieldValue, MarshalError> = match &f.kind {
            Placement::Path => {
                assert(is_path_field_at(fs, k as int, f.inner.name@));
                assert(path_names(fs).contains(f.inner.name@));
                match find_param(t, &f.inner.name) {
                    Some(j) => {
                        assert(pv[j as int] == parts@[j as int]@);
                        match unescape_segment(&parts[j]) {
                            Some(v) => Ok(FieldValue::Bytes(v)),
                            None => Err(MarshalError::FieldDecode(k)),
                        }
                    },
                    None => Err(MarshalError::PathNotMatched),
                }
            },
            Placement::Query => {
                let found = lookup_entry(&query, &f.inner.name, Keyed::Query);
                keyed_value(f, found, MarshalError::FieldDecode(k))
            },
            Placement::QueryMap => Ok(FieldValue::Pairs(copy_pairs(&query))),
            Placement::Header(h) => {
                let found = lookup_entry(&headers, h, Keyed::Header);
                keyed_value(f, found, MarshalError::MissingHeader(k))
            },
            Placement::Body => {
                assert(crate::validate::has_body(fs));
                match &record {
                    Some(ps) => {
                        let found = lookup_entry(ps, &f.inner.name, Keyed::Body);
                        keyed_value(f, found, MarshalError::FieldDecode(k))
                    },
                    None => Err(MarshalError::FieldDecode(k)),
                }
            },
            Placement::RawBody | Placement::NewtypeBody => Ok(FieldValue::Bytes(copy_bytes(body))),
        };
        match v {
            Ok(x) => {
                assert(want == Ok::<ValueView, MarshalError>(x@));
                let ghost before = values_view(out@);
                out.push(x);
                assert(values_view(out@) =~= before.push(x@));
            },
            Err(e) => {
                assert(want == Err::<ValueView, MarshalError>(e));
                proof {
                    lemma_decode_fields_err(fs, k as int, t@, pv, qv, hv, body@);
                }
                return Err(e);
            },
        }
        k += 1;
    }
    assert(fs.subrange(0, k as int) =~= fs);
    Ok(out)
}

/// An error at field `k`, with the fields before it decoded, is the error of
/// the whole message.
proof fn lemma_decode_fields_err(
    fs: Seq<FieldView>,
    k: int,
    t: Seq<SegmentView>,
    parts: Seq<Seq<u8>>,
    query: Seq<(Seq<u8>, Seq<u8>)>,
    headers: Seq<(Seq<u8>, Seq<u8>)>,
    body: Seq<u8>,
)
    requires
        0 <= k < fs.len(),
        decode_fields(fs.subrange(0, k), t, parts, query, headers, body) is Ok,
        decode_field(fs[k], k, t, parts, query, headers, body) is Err,
    ensures
        decode_fields(fs, t, parts, query, headers, body) == Err::<Seq<ValueView>, MarshalError>(
            decode_field(fs[k], k, t, parts, query, headers, body)->Err_0,
        ),
    decreases fs.len(),
{
    if k == fs.len() - 1 {
        assert(fs.drop_last() =~= fs.subrange(0, k));
    } else {
        assert(fs.drop_last().subrange(0, k) =~= fs.subrange(0, k));
        assert(fs.drop_last()[k] == fs[k]);
        lemma_decode_fields_err(fs.drop_last(), k, t, parts, query, headers, body);
    }
}

/// Encodes a response's field values as headers and a body.
pub fn encode_response(fields: &Vec<RequestField>, values: &Vec<FieldValue>) -> (r: Result<HttpResponse, MarshalError>)
    requires
        fields@.len() == values@.len(),
        names_unique(fields_view(fields@)),
        response_check(fields_view(fields@)) is Ok,
        json_record(entries(fields_view(fields@), values_view(values@), Keyed::Body)).len() <= usize::MAX,
    ensures
        r is Ok <==> headers_ok(fields_view(fields@), values_view(values@)),
        r matches Ok(resp) ==> pairs_view(resp.headers@) == entries(fields_view(fields@), values_view(values@), Keyed::Header)
            && resp.body@ == encoded_body(fields_view(fields@), values_view(values@)),
        r matches Err(e) ==> e is InvalidHeaderValue,
        r matches Err(MarshalError::InvalidHeaderValue(h)) ==> first_bad_header(fields_view(fields@), values_view(values@), h as int),
{
    let ghost vs = values_view(values@);
    match check_headers(fields, values) {
        Ok(()) => {},
        Err(e) => {
            return Err(e);
        },
    }
    let headers = collect_entries(fields, values, Keyed::Header);
    let body = match find_single_body(fields) {
        Some(i) => {
            assert(vs[i as int] == values@[i as int]@);
            match &values[i] {
                FieldValue::Bytes(b) => copy_bytes(b),
                _ => Vec::new(),
            }
        },
        None => {
            if any_body_field(fields) {
                let record = collect_entries(fields, values, Keyed::Body);
                json_encode(&record)
            } else {
                Vec::new()
            }
        },
    };
    Ok(HttpResponse { headers, body })
}

/// What a response decodes to: it has no path and no query string.
pub open spec fn decode_response_spec(fs: Seq<FieldView>, headers: Seq<(Seq<u8>, Seq<u8>)>, body: Seq<u8>) -> Result<Seq<ValueView>, MarshalError> {
    decode_fields(fs, Seq::empty(), Seq::empty(), Seq::empty(), headers, body)
}

/// Decodes a response's field values from its headers and body.
pub fn decode_response(fields: &Vec<RequestField>, resp: &HttpResponse) -> (r: Result<Vec<FieldValue>, MarshalError>)
    requires
        names_unique(fields_view(fields@)),
        response_check(fields_view(fields@)) is Ok,
    ensures
        match r {
            Ok(vals) => decode_response_spec(fields_view(fields@), pairs_view(resp.headers@), resp.body@)
                == Ok::<Seq<ValueView>, MarshalError>(values_view(vals@)),
            Err(e) => decode_response_spec(fields_view(fields@), pairs_view(resp.headers@), resp.body@)
                == Err::<Seq<ValueView>, MarshalError>(e),
        },
{
    let t = PathTemplate { segments: Vec::new() };
    let parts: Vec<Vec<u8>> = Vec::new();
    let query: Vec<Pair> = Vec::new();
    proof {
        assert(t@ =~= Seq::<SegmentView>::empty());
        assert(parts_view(parts@) =~= Seq::<Seq<u8>>::empty());
        assert(pairs_view(query@) =~= Seq::<(Seq<u8>, Seq<u8>)>::empty());
        assert(crate::metadata::placeholders(t@) =~= Set::<Seq<u8>>::empty());
    }
    decode_values(&t, &parts, fields, &query, &resp.headers, &resp.body)
}

} // verus!
