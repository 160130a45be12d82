//! The wire-level HTTP message, field values, and the model of how fields are
//! laid out in a message.

use vstd::prelude::*;
use crate::bytes::eq_ignore_case;
use crate::escape::escape;
use crate::field::FieldView;
use crate::metadata::{Method, SegmentView};
use crate::placement::PlacementView;

verus! {

/// A name and a value, as in a query string or a header map.
#[derive(Debug)]
pub struct Pair {
    pub name: Vec<u8>,
    pub value: Vec<u8>,
}

impl View for Pair {
    type V = (Seq<u8>, Seq<u8>);

    open spec fn view(&self) -> (Seq<u8>, Seq<u8>) {
        (self.name@, self.value@)
    }
}

/// The views of a list of pairs.
pub open spec fn pairs_view(ps: Seq<Pair>) -> Seq<(Seq<u8>, Seq<u8>)> {
    ps.map_values(|p: Pair| p@)
}

/// An HTTP message as exchanged with a transport.
#[derive(Debug)]
pub struct HttpMessage {
    pub method: Method,
    pub path: Vec<u8>,
    pub query: Vec<Pair>,
    pub headers: Vec<Pair>,
    pub body: Vec<u8>,
}

/// The headers and body of an HTTP response.
#[derive(Debug)]
pub struct HttpResponse {
    pub headers: Vec<Pair>,
    pub body: Vec<u8>,
}

/// The value of one field of a request or response.
#[derive(Debug)]
pub enum FieldValue {
    /// No value: the field is optional and left out.
    Absent,
    /// The field's value, encoded by its type.
    Bytes(Vec<u8>),
    /// The key/value pairs of a query-map field.
    Pairs(Vec<Pair>),
}

/// The mathematical value of a [`FieldValue`].
pub ghost enum ValueView {
    Absent,
    Bytes(Seq<u8>),
    Pairs(Seq<(Seq<u8>, Seq<u8>)>),
}

impl View for FieldValue {
    type V = ValueView;

    open spec fn view(&self) -> ValueView {
        match self {
            FieldValue::Absent => ValueView::Absent,
            FieldValue::Bytes(b) => ValueView::Bytes(b@),
            FieldValue::Pairs(ps) => ValueView::Pairs(pairs_view(ps@)),
        }
    }
}

/// The views of a list of values.
pub open spec fn values_view(vs: Seq<FieldValue>) -> Seq<ValueView> {
    vs.map_values(|v: FieldValue| v@)
}

/// The bytes of a value; empty for any other kind.
pub open spec fn bytes_of(v: ValueView) -> Seq<u8> {
    match v {
        ValueView::Bytes(b) => b,
        _ => Seq::empty(),
    }
}

/// The three placements that are looked up by key.
#[derive(Clone, Copy)]
pub enum Keyed {
    Query,
    Header,
    Body,
}

/// Whether a field sits in the given keyed placement.
pub open spec fn selects(f: FieldView, k: Keyed) -> bool {
    match k {
        Keyed::Query => f.placement is Query,
        Keyed::Header => f.placement is Header,
        Keyed::Body => f.placement is Body,
    }
}

/// The key under which a field is written: its header name for a header
/// field, else its name.
pub open spec fn key_of(f: FieldView) -> Seq<u8> {
    match f.placement {
        PlacementView::Header(h) => h,
        _ => f.name,
    }
}

/// Key equality: header names ignore ASCII case, other keys do not.
pub open spec fn key_eq(a: Seq<u8>, b: Seq<u8>, k: Keyed) -> bool {
    match k {
        Keyed::Header => eq_ignore_case(a, b),
        _ => a == b,
    }
}

/// Whether a value is written to the wire: it is present, and differs from
/// the field's default.
pub open spec fn emitted(f: FieldView, v: ValueView) -> bool {
    match v {
        ValueView::Bytes(b) => f.default != Some(b),
        _ => false,
    }
}

/// The entry that field `f` with value `v` writes, if any.
pub open spec fn entry(f: FieldView, v: ValueView, k: Keyed) -> Seq<(Seq<u8>, Seq<u8>)> {
    if selects(f, k) && emitted(f, v) {
        seq![(key_of(f), bytes_of(v))]
    } else {
        Seq::empty()
    }
}

/// The entries that the fields of a keyed placement write, in field order.
pub open spec fn entries(fs: Seq<FieldView>, vs: Seq<ValueView>, k: Keyed) -> Seq<(Seq<u8>, Seq<u8>)>
    decreases fs.len(),
{
    if fs.len() == 0 || vs.len() != fs.len() {
        Seq::empty()
    } else {
        entries(fs.drop_last(), vs.drop_last(), k) + entry(fs.last(), vs.last(), k)
    }
}

/// The value of the first entry whose key matches.
pub open spec fn lookup(ps: Seq<(Seq<u8>, Seq<u8>)>, key: Seq<u8>, k: Keyed) -> Option<Seq<u8>>
    decreases ps.len(),
{
    if ps.len() == 0 {
        None
    } else {
        match lookup(ps.drop_last(), key, k) {
            Some(v) => Some(v),
            None => if key_eq(ps.last().0, key, k) {
                Some(ps.last().1)
            } else {
                None
            },
        }
    }
}

/// The value that a field takes when the message does not carry it: its
/// default, else nothing for an optional field; `None` when it is required.
pub open spec fn fallback(f: FieldView) -> Option<ValueView> {
    match f.default {
        Some(d) => Some(ValueView::Bytes(d)),
        None => if f.optional {
            Some(ValueView::Absent)
        } else {
            None
        },
    }
}

/// The index of the field that takes the whole body, if any.
pub open spec fn single_body_index(fs: Seq<FieldView>) -> Option<int> {
    if exists|i: int| 0 <= i < fs.len() && ((#[trigger] fs[i]).placement is RawBody || fs[i].placement is NewtypeBody) {
        Some(choose|i: int| 0 <= i < fs.len() && ((#[trigger] fs[i]).placement is RawBody || fs[i].placement is NewtypeBody))
    } else {
        None
    }
}

/// The index of the query-map field, if any.
pub open spec fn query_map_index(fs: Seq<FieldView>) -> Option<int> {
    if exists|i: int| 0 <= i < fs.len() && (#[trigger] fs[i]).placement is QueryMap {
        Some(choose|i: int| 0 <= i < fs.len() && (#[trigger] fs[i]).placement is QueryMap)
    } else {
        None
    }
}

/// The index of the path field named `n`.
pub open spec fn path_field_named(fs: Seq<FieldView>, n: Seq<u8>) -> int {
    choose|i: int| 0 <= i < fs.len() && fs[i].placement is Path && fs[i].name == n
}

/// The written path segments of a template filled with the path values.
pub open spec fn filled_parts(t: Seq<SegmentView>, fs: Seq<FieldView>, vs: Seq<ValueView>) -> Seq<Seq<u8>> {
    t.map_values(|s: SegmentView| match s {
        SegmentView::Literal(l) => l,
        SegmentView::Param(n) => escape(bytes_of(vs[path_field_named(fs, n)])),
    })
}

} // verus!
