//! Decoding an encoded request gives back its values.

use vstd::prelude::*;
use crate::bytes::eq_ignore_case;
use crate::escape::{escape, lemma_escape_slash_free, lemma_unescape_escape};
use crate::field::FieldView;
use crate::json::{json_entries_ok, lemma_parse_json_record};
use crate::marshal::{
    decode_field, decode_fields, decode_message, decode_response_spec, encoded_body, lemma_split_of,
    message_encodes, names_unique, param_index, path_values_ok, route_matches, splits,
};
use crate::metadata::{SegmentView, is_param_at, placeholders, seg_wf, template_wf};
use crate::path::{all_slash_free, lemma_join_shape, slash_free};
use crate::placement::PlacementView;
use crate::validate::{
    has_body, has_query, is_path_field_at, is_single_body,
    lemma_count_query_map_pos, lemma_count_query_map_two, lemma_count_single_body_pos,
    lemma_count_single_body_two, path_names, placement_check, response_check, has_any_query,
};
use crate::wire::{
    HttpMessage, Keyed, ValueView, bytes_of, emitted, entries, entry, filled_parts,
    key_eq, key_of, lookup, pairs_view, path_field_named, query_map_index, selects,
    single_body_index,
};

verus! {

/// A value that a field can take: pairs for a query map; otherwise bytes, or
/// nothing for an optional field without default that is neither a path
/// segment nor the whole body.
pub open spec fn value_valid(f: FieldView, v: ValueView) -> bool {
    match f.placement {
        PlacementView::QueryMap => v is Pairs,
        _ => match v {
            ValueView::Bytes(_) => true,
            ValueView::Absent => f.optional && f.default is None && !(f.placement is Path)
                && !is_single_body(f.placement),
            ValueView::Pairs(_) => false,
        },
    }
}

/// No two header fields use the same header name, up to case.
pub open spec fn header_names_distinct(fs: Seq<FieldView>) -> bool {
    forall|i: int, j: int|
        0 <= i < fs.len() && 0 <= j < fs.len() && i != j && (#[trigger] fs[i]).placement is Header
            && (#[trigger] fs[j]).placement is Header ==> !eq_ignore_case(key_of(fs[i]), key_of(fs[j]))
}

/// The keys of the fields of placement `kd` are pairwise distinct.
pub open spec fn keys_distinct(fs: Seq<FieldView>, kd: Keyed) -> bool {
    forall|i: int, j: int|
        0 <= i < fs.len() && 0 <= j < fs.len() && i != j && selects(#[trigger] fs[i], kd) && selects(
            #[trigger] fs[j],
            kd,
        ) ==> !key_eq(key_of(fs[i]), key_of(fs[j]), kd)
}

proof fn lemma_lookup_none(fs: Seq<FieldView>, vs: Seq<ValueView>, kd: Keyed, key: Seq<u8>)
    requires
        fs.len() == vs.len(),
        forall|i: int| 0 <= i < fs.len() && selects(#[trigger] fs[i], kd) ==> !key_eq(key_of(fs[i]), key, kd),
    ensures
        lookup(entries(fs, vs, kd), key, kd) is None,
    decreases fs.len(),
{
    if fs.len() > 0 {
        let d = fs.drop_last();
        assert forall|i: int| 0 <= i < d.len() && selects(#[trigger] d[i], kd) implies !key_eq(key_of(d[i]), key, kd) by {
            assert(d[i] == fs[i]);
        }
        lemma_lookup_none(d, vs.drop_last(), kd, key);
        let a = entries(d, vs.drop_last(), kd);
        let e = entry(fs.last(), vs.last(), kd);
        if e.len() > 0 {
            assert((a + e).drop_last() =~= a);
        } else {
            assert(a + e =~= a);
        }
    }
}

proof fn lemma_key_eq_refl(a: Seq<u8>, kd: Keyed)
    ensures
        key_eq(a, a, kd),
{
}

/// Looking up a field's key among the entries finds that field's value
/// exactly when it was written.
proof fn lemma_lookup_entries(fs: Seq<FieldView>, vs: Seq<ValueView>, kd: Keyed, k: int)
    requires
        fs.len() == vs.len(),
        0 <= k < fs.len(),
        selects(fs[k], kd),
        keys_distinct(fs, kd),
    ensures
        lookup(entries(fs, vs, kd), key_of(fs[k]), kd) == if emitted(fs[k], vs[k]) {
            Some(bytes_of(vs[k]))
        } else {
            None::<Seq<u8>>
        },
    decreases fs.len(),
{
    let d = fs.drop_last();
    let dv = vs.drop_last();
    let key = key_of(fs[k]);
    let a = entries(d, dv, kd);
    let e = entry(fs.last(), vs.last(), kd);
    assert(entries(fs, vs, kd) == a + e);
    lemma_key_eq_refl(key, kd);
    if k == fs.len() - 1 {
        assert forall|i: int| 0 <= i < d.len() && selects(#[trigger] d[i], kd) implies !key_eq(key_of(d[i]), key, kd) by {
            assert(d[i] == fs[i]);
        }
        lemma_lookup_none(d, dv, kd, key);
    } else {
        assert(keys_distinct(d, kd)) by {
            assert forall|i: int, j: int|
                0 <= i < d.len() && 0 <= j < d.len() && i != j && selects(#[trigger] d[i], kd) && selects(
                    #[trigger] d[j],
                    kd,
                ) implies !key_eq(key_of(d[i]), key_of(d[j]), kd) by {
                assert(d[i] == fs[i] && d[j] == fs[j]);
            }
        }
        assert(d[k] == fs[k] && dv[k] == vs[k]);
        lemma_lookup_entries(d, dv, kd, k);
    }
    if e.len() > 0 {
        assert((a + e).drop_last() =~= a);
        assert((a + e).last() == e[0]);
    } else {
        assert(a + e =~= a);
    }
}

/// What the encoded message gives one field is that field's value.
proof fn lemma_field_round_trip(t: Seq<SegmentView>, fs: Seq<FieldView>, vs: Seq<ValueView>, m: HttpMessage, k: int)
    requires
        fs.len() == vs.len(),
        0 <= k < fs.len(),
        template_wf(t),
        placement_check(fs) is Ok,
        path_names(fs) == placeholders(t),
        names_unique(fs),
        header_names_distinct(fs),
        forall|i: int| 0 <= i < fs.len() ==> value_valid(#[trigger] fs[i], vs[i]),
        path_values_ok(t, fs, vs),
        json_entries_ok(entries(fs, vs, Keyed::Body)),
        message_encodes(t, fs, vs, m),
    ensures
        decode_field(fs[k], k, t, filled_parts(t, fs, vs), pairs_view(m.query@), pairs_view(m.headers@), m.body@)
            == Ok::<ValueView, crate::marshal::MarshalError>(vs[k]),
{
    let f = fs[k];
    let parts = filled_parts(t, fs, vs);
    assert(value_valid(fs[k], vs[k]));
    assert(keys_distinct(fs, Keyed::Query)) by {
        assert forall|i: int, j: int|
            0 <= i < fs.len() && 0 <= j < fs.len() && i != j && selects(#[trigger] fs[i], Keyed::Query) && selects(
                #[trigger] fs[j],
                Keyed::Query,
            ) implies !key_eq(key_of(fs[i]), key_of(fs[j]), Keyed::Query) by {}
    }
    assert(keys_distinct(fs, Keyed::Body)) by {
        assert forall|i: int, j: int|
            0 <= i < fs.len() && 0 <= j < fs.len() && i != j && selects(#[trigger] fs[i], Keyed::Body) && selects(
                #[trigger] fs[j],
                Keyed::Body,
            ) implies !key_eq(key_of(fs[i]), key_of(fs[j]), Keyed::Body) by {}
    }
    assert(keys_distinct(fs, Keyed::Header)) by {
        assert forall|i: int, j: int|
            0 <= i < fs.len() && 0 <= j < fs.len() && i != j && selects(#[trigger] fs[i], Keyed::Header) && selects(
                #[trigger] fs[j],
                Keyed::Header,
            ) implies !key_eq(key_of(fs[i]), key_of(fs[j]), Keyed::Header) by {}
    }
    match f.placement {
        PlacementView::Path => {
            assert(is_path_field_at(fs, k, f.name));
            assert(path_names(fs).contains(f.name));
            assert(placeholders(t).contains(f.name));
            let j = param_index(t, f.name);
            assert(is_param_at(t, j, f.name));
            assert(path_field_named(fs, f.name) == k) by {
                let c = path_field_named(fs, f.name);
                assert(0 <= c < fs.len() && fs[c].placement is Path && fs[c].name == f.name);
            }
            assert(parts[j] == escape(bytes_of(vs[k])));
            lemma_unescape_escape(bytes_of(vs[k]));
        },
        PlacementView::Query => {
            if query_map_index(fs) is Some {
                let q = choose|i: int| 0 <= i < fs.len() && (#[trigger] fs[i]).placement is QueryMap;
                lemma_count_query_map_pos(fs, q);
                assert(has_query(fs));
            }
            lemma_lookup_entries(fs, vs, Keyed::Query, k);
        },
        PlacementView::QueryMap => {
            let q = choose|i: int| 0 <= i < fs.len() && (#[trigger] fs[i]).placement is QueryMap;
            assert(0 <= q < fs.len() && fs[q].placement is QueryMap);
            if q < k {
                lemma_count_query_map_two(fs, q, k);
            } else if k < q {
                lemma_count_query_map_two(fs, k, q);
            }
        },
        PlacementView::Header(h) => {
            lemma_lookup_entries(fs, vs, Keyed::Header, k);
        },
        PlacementView::Body => {
            if single_body_index(fs) is Some {
                let q = choose|i: int| 0 <= i < fs.len() && ((#[trigger] fs[i]).placement is RawBody || fs[i].placement is NewtypeBody);
                lemma_count_single_body_pos(fs, q);
                assert(has_body(fs));
            }
            assert(has_body(fs));
            lemma_parse_json_record(entries(fs, vs, Keyed::Body));
            lemma_lookup_entries(fs, vs, Keyed::Body, k);
        },
        _ => {
            let q = choose|i: int| 0 <= i < fs.len() && ((#[trigger] fs[i]).placement is RawBody || fs[i].placement is NewtypeBody);
            assert(0 <= q < fs.len() && is_single_body(fs[q].placement));
            if q < k {
                lemma_count_single_body_two(fs, q, k);
            } else if k < q {
                lemma_count_single_body_two(fs, k, q);
            }
        },
    }
}

proof fn lemma_fields_round_trip(
    fs: Seq<FieldView>,
    vs: Seq<ValueView>,
    t: Seq<SegmentView>,
    parts: Seq<Seq<u8>>,
    query: Seq<(Seq<u8>, Seq<u8>)>,
    headers: Seq<(Seq<u8>, Seq<u8>)>,
    body: Seq<u8>,
    n: int,
)
    requires
        fs.len() == vs.len(),
        0 <= n <= fs.len(),
        forall|k: int| 0 <= k < fs.len() ==> decode_field(#[trigger] fs[k], k, t, parts, query, headers, body)
            == Ok::<ValueView, crate::marshal::MarshalError>(vs[k]),
    ensures
        decode_fields(fs.subrange(0, n), t, parts, query, headers, body)
            == Ok::<Seq<ValueView>, crate::marshal::MarshalError>(vs.subrange(0, n)),
    decreases n,
{
    if n > 0 {
        lemma_fields_round_trip(fs, vs, t, parts, query, headers, body, n - 1);
        assert(fs.subrange(0, n).drop_last() =~= fs.subrange(0, n - 1));
        assert(fs.subrange(0, n).last() == fs[n - 1]);
        assert(vs.subrange(0, n - 1).push(vs[n - 1]) =~= vs.subrange(0, n));
    } else {
        assert(vs.subrange(0, 0) =~= Seq::<ValueView>::empty());
    }
}

/// Round trip: on a validated definition, a message that encodes valid
/// values decodes back to exactly those values. Values left out because they
/// equal the default decode to that default, which is the value itself.
/// Body-record values must be JSON values and their names plain, as the
/// body record is a JSON object.
pub proof fn lemma_round_trip(t: Seq<SegmentView>, fs: Seq<FieldView>, vs: Seq<ValueView>, m: HttpMessage)
    requires
        fs.len() == vs.len(),
        template_wf(t),
        placement_check(fs) is Ok,
        path_names(fs) == placeholders(t),
        names_unique(fs),
        header_names_distinct(fs),
        forall|i: int| 0 <= i < fs.len() ==> value_valid(#[trigger] fs[i], vs[i]),
        path_values_ok(t, fs, vs),
        json_entries_ok(entries(fs, vs, Keyed::Body)),
        message_encodes(t, fs, vs, m),
    ensures
        decode_message(fs, t, m) == Ok::<Seq<ValueView>, crate::marshal::MarshalError>(vs),
{
    let parts = filled_parts(t, fs, vs);
    assert forall|j: int| 0 <= j < parts.len() implies slash_free(#[trigger] parts[j]) by {
        assert(seg_wf(t[j]));
        match t[j] {
            SegmentView::Literal(l) => {},
            SegmentView::Param(n) => {
                assert(is_param_at(t, j, n));
                lemma_escape_slash_free(bytes_of(vs[path_field_named(fs, n)]));
            },
        }
    }
    assert(all_slash_free(parts));
    lemma_join_shape(parts);
    lemma_split_of(parts, m.path@);
    assert(splits(m.path@));
    assert(route_matches(t, parts));
    assert forall|k: int| 0 <= k < fs.len() implies decode_field(#[trigger] fs[k], k, t, parts, pairs_view(m.query@), pairs_view(m.headers@), m.body@)
        == Ok::<ValueView, crate::marshal::MarshalError>(vs[k]) by {
        lemma_field_round_trip(t, fs, vs, m, k);
    }
    lemma_fields_round_trip(fs, vs, t, parts, pairs_view(m.query@), pairs_view(m.headers@), m.body@, fs.len() as int);
    assert(fs.subrange(0, fs.len() as int) =~= fs);
    assert(vs.subrange(0, vs.len() as int) =~= vs);
}

proof fn lemma_response_field(
    fs: Seq<FieldView>,
    vs: Seq<ValueView>,
    headers: Seq<(Seq<u8>, Seq<u8>)>,
    body: Seq<u8>,
    k: int,
)
    requires
        fs.len() == vs.len(),
        0 <= k < fs.len(),
        response_check(fs) is Ok,
        names_unique(fs),
        header_names_distinct(fs),
        forall|i: int| 0 <= i < fs.len() ==> value_valid(#[trigger] fs[i], vs[i]),
        json_entries_ok(entries(fs, vs, Keyed::Body)),
        headers == entries(fs, vs, Keyed::Header),
        body == encoded_body(fs, vs),
    ensures
        decode_field(fs[k], k, Seq::empty(), Seq::empty(), Seq::empty(), headers, body)
            == Ok::<ValueView, crate::marshal::MarshalError>(vs[k]),
{
    let f = fs[k];
    assert(value_valid(fs[k], vs[k]));
    match f.placement {
        PlacementView::Path => {
            assert(is_path_field_at(fs, k, f.name));
            assert(path_names(fs).contains(f.name));
        },
        PlacementView::Query => {
            assert(has_any_query(fs));
        },
        PlacementView::QueryMap => {
            assert(has_any_query(fs));
        },
        PlacementView::Header(h) => {
            assert(keys_distinct(fs, Keyed::Header)) by {
                assert forall|i: int, j: int|
                    0 <= i < fs.len() && 0 <= j < fs.len() && i != j && selects(#[trigger] fs[i], Keyed::Header)
                        && selects(#[trigger] fs[j], Keyed::Header) implies !key_eq(key_of(fs[i]), key_of(fs[j]), Keyed::Header) by {}
            }
            lemma_lookup_entries(fs, vs, Keyed::Header, k);
        },
        PlacementView::Body => {
            assert(keys_distinct(fs, Keyed::Body)) by {
                assert forall|i: int, j: int|
                    0 <= i < fs.len() && 0 <= j < fs.len() && i != j && selects(#[trigger] fs[i], Keyed::Body)
                        && selects(#[trigger] fs[j], Keyed::Body) implies !key_eq(key_of(fs[i]), key_of(fs[j]), Keyed::Body) by {}
            }
            if single_body_index(fs) is Some {
                let q = choose|i: int| 0 <= i < fs.len() && ((#[trigger] fs[i]).placement is RawBody || fs[i].placement is NewtypeBody);
                lemma_count_single_body_pos(fs, q);
                assert(has_body(fs));
            }
            assert(has_body(fs));
            lemma_parse_json_record(entries(fs, vs, Keyed::Body));
            lemma_lookup_entries(fs, vs, Keyed::Body, k);
        },
        _ => {
            let q = choose|i: int| 0 <= i < fs.len() && ((#[trigger] fs[i]).placement is RawBody || fs[i].placement is NewtypeBody);
            assert(0 <= q < fs.len() && is_single_body(fs[q].placement));
            if q < k {
                lemma_count_single_body_two(fs, q, k);
            } else if k < q {
                lemma_count_single_body_two(fs, k, q);
            }
        },
    }
}

/// Round trip for responses: on a validated response definition, the headers
/// and body that encode valid values decode back to exactly those values.
pub proof fn lemma_response_round_trip(
    fs: Seq<FieldView>,
    vs: Seq<ValueView>,
    headers: Seq<(Seq<u8>, Seq<u8>)>,
    body: Seq<u8>,
)
    requires
        fs.len() == vs.len(),
        response_check(fs) is Ok,
        names_unique(fs),
        header_names_distinct(fs),
        forall|i: int| 0 <= i < fs.len() ==> value_valid(#[trigger] fs[i], vs[i]),
        json_entries_ok(entries(fs, vs, Keyed::Body)),
        headers == entries(fs, vs, Keyed::Header),
        body == encoded_body(fs, vs),
    ensures
        decode_response_spec(fs, headers, body) == Ok::<Seq<ValueView>, crate::marshal::MarshalError>(vs),
{
    assert forall|k: int| 0 <= k < fs.len() implies decode_field(#[trigger] fs[k], k, Seq::empty(), Seq::empty(), Seq::empty(), headers, body)
        == Ok::<ValueView, crate::marshal::MarshalError>(vs[k]) by {
        lemma_response_field(fs, vs, headers, body, k);
    }
    lemma_fields_round_trip(fs, vs, Seq::empty(), Seq::empty(), Seq::empty(), headers, body, fs.len() as int);
    assert(fs.subrange(0, fs.len() as int) =~= fs);
    assert(vs.subrange(0, vs.len() as int) =~= vs);
}

} // verus!
