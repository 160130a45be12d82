//! Endpoint metadata: the method, the declared policy flags, and the history
//! of path templates across protocol versions.

use vstd::prelude::*;
use crate::bytes::{bytes_eq, copy_bytes};
use crate::path::{join, slash_free, all_slash_free, parts_view, split_path, lemma_join_injective};

verus! {

/// An HTTP method.
#[derive(Debug, Clone, Copy, PartialEq, Eq, Structural)]
pub enum Method {
    Get,
    Head,
    Post,
    Put,
    Delete,
    Patch,
    Options,
}

/// A protocol version, `major.minor`.
#[derive(Debug, Clone, Copy, PartialEq, Eq, Structural)]
pub struct Version {
    pub major: u32,
    pub minor: u32,
}

/// The order of versions: by major, then by minor number.
pub open spec fn version_le(a: Version, b: Version) -> bool {
    a.major < b.major || (a.major == b.major && a.minor <= b.minor)
}

/// Strict order of versions.
pub open spec fn version_lt(a: Version, b: Version) -> bool {
    version_le(a, b) && a != b
}

impl Version {
    /// The version `major.minor`.
    pub fn new(major: u32, minor: u32) -> (r: Version)
        ensures
            r.major == major,
            r.minor == minor,
    {
        Version { major, minor }
    }

    /// Whether `self` is no later than `other`.
    pub fn le(&self, other: &Version) -> (r: bool)
        ensures
            r == version_le(*self, *other),
    {
        self.major < other.major || (self.major == other.major && self.minor <= other.minor)
    }
}

/// The opening brace of a placeholder.
pub const OPEN_BRACE: u8 = 0x7b;

/// The closing brace of a placeholder.
pub const CLOSE_BRACE: u8 = 0x7d;

/// A segment of a path template: literal text or a named placeholder.
#[derive(Debug)]
pub enum Segment {
    Literal(Vec<u8>),
    Param(Vec<u8>),
}

/// The mathematical value of a [`Segment`].
pub ghost enum SegmentView {
    Literal(Seq<u8>),
    Param(Seq<u8>),
}

impl View for Segment {
    type V = SegmentView;

    open spec fn view(&self) -> SegmentView {
        match self {
            Segment::Literal(l) => SegmentView::Literal(l@),
            Segment::Param(n) => SegmentView::Param(n@),
        }
    }
}

/// Whether a path segment has the placeholder form `{name}`.
pub open spec fn is_braced(p: Seq<u8>) -> bool {
    p.len() >= 2 && p[0] == OPEN_BRACE && p[p.len() - 1] == CLOSE_BRACE
}

/// How a segment of a template is written.
pub open spec fn seg_text(s: SegmentView) -> Seq<u8> {
    match s {
        SegmentView::Literal(l) => l,
        SegmentView::Param(n) => seq![OPEN_BRACE] + n + seq![CLOSE_BRACE],
    }
}

/// The segment that a written path segment stands for.
pub open spec fn seg_of_part(p: Seq<u8>) -> SegmentView {
    if is_braced(p) {
        SegmentView::Param(p.subrange(1, p.len() - 1))
    } else {
        SegmentView::Literal(p)
    }
}

/// A segment is written without separators, and a literal is never braced.
pub open spec fn seg_wf(s: SegmentView) -> bool {
    slash_free(seg_text(s)) && match s {
        SegmentView::Literal(l) => !is_braced(l),
        SegmentView::Param(_) => true,
    }
}

/// The written segments of a template.
pub open spec fn texts(t: Seq<SegmentView>) -> Seq<Seq<u8>> {
    t.map_values(|s: SegmentView| seg_text(s))
}

/// The template as written, `/seg/seg/...`.
pub open spec fn template_text(t: Seq<SegmentView>) -> Seq<u8> {
    join(texts(t))
}

/// The segments that written path segments stand for.
pub open spec fn segs_of_parts(pv: Seq<Seq<u8>>) -> Seq<SegmentView> {
    pv.map_values(|p: Seq<u8>| seg_of_part(p))
}

/// Whether segment `i` of the template is a placeholder named `n`.
pub open spec fn is_param_at(t: Seq<SegmentView>, i: int, n: Seq<u8>) -> bool {
    0 <= i < t.len() && t[i] == SegmentView::Param(n)
}

/// The placeholder names of a template.
pub open spec fn placeholders(t: Seq<SegmentView>) -> Set<Seq<u8>> {
    Set::new(|n: Seq<u8>| exists|i: int| is_param_at(t, i, n))
}

/// No two placeholders of the template share a name.
pub open spec fn params_unique(t: Seq<SegmentView>) -> bool {
    forall|i: int, j: int, n: Seq<u8>|
        #[trigger] is_param_at(t, i, n) && #[trigger] is_param_at(t, j, n) ==> i == j
}

/// A well-formed template: at least one segment, each well-formed, and
/// placeholder names unique.
pub open spec fn template_wf(t: Seq<SegmentView>) -> bool {
    &&& t.len() > 0
    &&& forall|i: int| 0 <= i < t.len() ==> seg_wf(#[trigger] t[i])
    &&& params_unique(t)
}

/// A path template, `/literal/{placeholder}/...`.
#[derive(Debug)]
pub struct PathTemplate {
    pub segments: Vec<Segment>,
}

impl View for PathTemplate {
    type V = Seq<SegmentView>;

    open spec fn view(&self) -> Seq<SegmentView> {
        self.segments@.map_values(|s: Segment| s@)
    }
}

proof fn lemma_seg_round(s: SegmentView)
    requires
        seg_wf(s),
    ensures
        seg_of_part(seg_text(s)) == s,
{
    match s {
        SegmentView::Literal(l) => {},
        SegmentView::Param(n) => {
            let p = seg_text(s);
            assert(is_braced(p));
            assert(p.subrange(1, p.len() - 1) =~= n);
        },
    }
}

proof fn lemma_part_round(p: Seq<u8>)
    requires
        slash_free(p),
    ensures
        seg_text(seg_of_part(p)) == p,
        seg_wf(seg_of_part(p)),
{
    if is_braced(p) {
        assert(seq![OPEN_BRACE] + p.subrange(1, p.len() - 1) + seq![CLOSE_BRACE] =~= p);
    }
}

/// Parses a template such as `/media/r0/download/{server}/{id}`. It fails
/// exactly when no well-formed template is written so.
pub fn parse_template(text: &Vec<u8>) -> (r: Option<PathTemplate>)
    ensures
        r matches Some(t) ==> template_wf(t@) && template_text(t@) == text@,
        r is None ==> forall|t: Seq<SegmentView>|
            template_wf(t) ==> #[trigger] template_text(t) != text@,
{
    let parts = match split_path(text) {
        Some(p) => p,
        None => {
            proof {
                assert forall|t: Seq<SegmentView>| template_wf(t) implies #[trigger] template_text(
                    t,
                ) != text@ by {
                    crate::path::lemma_join_shape(texts(t));
                }
            }
            return None;
        },
    };
    let ghost pv = parts_view(parts@);
    let mut segs: Vec<Segment> = Vec::new();
    let mut i: usize = 0;
    while i < parts.len()
        invariant
            0 <= i <= parts.len(),
            pv == parts_view(parts@),
            join(pv) == text@,
            all_slash_free(pv),
            segs@.len() == i,
            forall|k: int| 0 <= k < i ==> (#[trigger] segs@[k])@ == seg_of_part(pv[k]),
            forall|a: int, b: int, n: Seq<u8>|
                #![trigger is_param_at(segs_of_parts(pv), a, n), is_param_at(segs_of_parts(pv), b, n)]
                0 <= a < i && 0 <= b < i && is_param_at(segs_of_parts(pv), a, n)
                    && is_param_at(segs_of_parts(pv), b, n) ==> a == b,
        decreases parts.len() - i,
    {
        let part = &parts[i];
        let n = part.len();
        let ghost sv = segs_of_parts(pv);
        assert(pv[i as int] == part@);
        if n >= 2 && part[0] == OPEN_BRACE && part[n - 1] == CLOSE_BRACE {
            let mut name: Vec<u8> = Vec::new();
            let mut j: usize = 1;
            while j < n - 1
                invariant
                    1 <= j <= n - 1,
                    n == part@.len(),
                    name@ == part@.subrange(1, j as int),
                decreases n - 1 - j,
            {
                name.push(part[j]);
                j += 1;
                assert(name@ =~= part@.subrange(1, j as int));
            }
            let mut k: usize = 0;
            while k < i
                invariant
                    0 <= k <= i,
                    i < parts.len(),
                    pv == parts_view(parts@),
                    join(pv) == text@,
                    all_slash_free(pv),
                    segs@.len() == i,
                    sv == segs_of_parts(pv),
                    sv[i as int] == SegmentView::Param(name@),
                    forall|q: int| 0 <= q < i ==> (#[trigger] segs@[q])@ == seg_of_part(pv[q]),
                    forall|q: int| 0 <= q < k ==> sv[q] != SegmentView::Param(name@),
                decreases i - k,
            {
                assert(sv[k as int] == seg_of_part(pv[k as int]));
                match &segs[k] {
                    Segment::Param(other) => {
                        if bytes_eq(other, &name) {
                            proof {
                                assert(is_param_at(sv, k as int, name@));
                                assert(is_param_at(sv, i as int, name@));
                                assert forall|t: Seq<SegmentView>| template_wf(t) implies #[trigger] template_text(t) != text@ by {
                                    if template_text(t) == text@ {
                                        assert forall|q: int| 0 <= q < texts(t).len() implies slash_free(#[trigger] texts(t)[q]) by {
                                            assert(seg_wf(t[q]));
                                        }
                                        lemma_join_injective(texts(t), pv);
                                        assert forall|q: int| 0 <= q < t.len() implies #[trigger] t[q] == sv[q] by {
                                            assert(texts(t)[q] == pv[q]);
                                            assert(seg_wf(t[q]));
                                            lemma_seg_round(t[q]);
                                        }
                                        assert(is_param_at(t, k as int, name@));
                                        assert(is_param_at(t, i as int, name@));
                                    }
                                }
                            }
                            return None;
                        }
                    },
                    Segment::Literal(_) => {},
                }
                k += 1;
            }
            segs.push(Segment::Param(name));
            proof {
                assert(name@ =~= part@.subrange(1, part@.len() - 1));
            }
        } else {
            segs.push(Segment::Literal(copy_bytes(part)));
        }
        i += 1;
    }
    let t = PathTemplate { segments: segs };
    proof {
        let sv = segs_of_parts(pv);
        assert(t@ =~= sv);
        assert forall|q: int| 0 <= q < sv.len() implies seg_wf(#[trigger] sv[q]) by {
            lemma_part_round(pv[q]);
        }
        assert forall|q: int| 0 <= q < sv.len() implies #[trigger] texts(sv)[q] == pv[q] by {
            lemma_part_round(pv[q]);
        }
        assert(texts(sv) =~= pv);
    }
    Some(t)
}

/// The field that fills placeholder `n`: the one the overrides map it to,
/// else the field of the same name.
pub open spec fn override_name(n: Seq<u8>, overrides: Seq<(Seq<u8>, Seq<u8>)>) -> Seq<u8> {
    match crate::wire::lookup(overrides, n, crate::wire::Keyed::Query) {
        Some(f) => f,
        None => n,
    }
}

/// A segment with its placeholder renamed by the overrides.
pub open spec fn override_seg(s: SegmentView, overrides: Seq<(Seq<u8>, Seq<u8>)>) -> SegmentView {
    match s {
        SegmentView::Literal(l) => SegmentView::Literal(l),
        SegmentView::Param(n) => SegmentView::Param(override_name(n, overrides)),
    }
}

/// A template with its placeholders renamed by the overrides.
pub open spec fn overridden(t: Seq<SegmentView>, overrides: Seq<(Seq<u8>, Seq<u8>)>) -> Seq<SegmentView> {
    t.map_values(|s: SegmentView| override_seg(s, overrides))
}

/// Whether no two placeholders of the template share a name.
pub fn params_unique_exec(t: &PathTemplate) -> (r: bool)
    ensures
        r == params_unique(t@),
{
    let n = t.segments.len();
    let mut i: usize = 0;
    while i < n
        invariant
            0 <= i <= n,
            n == t@.len(),
            forall|a: int, b: int, m: Seq<u8>|
                #![trigger is_param_at(t@, a, m), is_param_at(t@, b, m)]
                0 <= a < i && 0 <= b < i && is_param_at(t@, a, m) && is_param_at(t@, b, m) ==> a == b,
        decreases n - i,
    {
        assert(t@[i as int] == t.segments@[i as int]@);
        match &t.segments[i] {
            Segment::Param(name) => {
                let mut j: usize = 0;
                while j < i
                    invariant
                        0 <= j <= i < n,
                        n == t@.len(),
                        t@[i as int] == SegmentView::Param(name@),
                        forall|q: int| 0 <= q < j ==> !is_param_at(t@, q, name@),
                    decreases i - j,
                {
                    assert(t@[j as int] == t.segments@[j as int]@);
                    match &t.segments[j] {
                        Segment::Param(other) => {
                            if bytes_eq(other, name) {
                                assert(is_param_at(t@, j as int, name@));
                                assert(is_param_at(t@, i as int, name@));
                                return false;
                            }
                        },
                        Segment::Literal(_) => {},
                    }
                    j += 1;
                }
            },
            Segment::Literal(_) => {},
        }
        i += 1;
    }
    true
}

/// Renames the placeholders of a template by a table of (placeholder, field)
/// overrides, for a field whose placeholder was renamed in some version.
/// Fails when the renamed template is not well-formed.
pub fn apply_overrides(t: PathTemplate, overrides: &Vec<crate::wire::Pair>) -> (r: Option<PathTemplate>)
    requires
        template_wf(t@),
    ensures
        r matches Some(u) ==> u@ == overridden(t@, crate::wire::pairs_view(overrides@)) && template_wf(u@),
        r is None ==> !template_wf(overridden(t@, crate::wire::pairs_view(overrides@))),
{
    let ghost ov = crate::wire::pairs_view(overrides@);
    let ghost want = overridden(t@, ov);
    let mut segs: Vec<Segment> = Vec::new();
    let mut i: usize = 0;
    while i < t.segments.len()
        invariant
            0 <= i <= t.segments.len(),
            ov == crate::wire::pairs_view(overrides@),
            want == overridden(t@, ov),
            template_wf(t@),
            segs@.len() == i,
            want.len() == t@.len(),
            forall|k: int| 0 <= k < i ==> (#[trigger] segs@[k])@ == want[k],
            forall|k: int| 0 <= k < i ==> seg_wf(#[trigger] want[k]),
        decreases t.segments.len() - i,
    {
        assert(t@[i as int] == t.segments@[i as int]@);
        match &t.segments[i] {
            Segment::Literal(l) => {
                assert(seg_wf(t@[i as int]));
                segs.push(Segment::Literal(copy_bytes(l)));
            },
            Segment::Param(n) => {
                let name = match crate::marshal::lookup_entry(overrides, n, crate::wire::Keyed::Query) {
                    Some(f) => f,
                    None => copy_bytes(n),
                };
                assert(want[i as int] == SegmentView::Param(name@));
                let mut j: usize = 0;
                while j < name.len()
                    invariant
                        0 <= j <= name.len(),
                        i < want.len(),
                        ov == crate::wire::pairs_view(overrides@),
                        want == overridden(t@, ov),
                        want[i as int] == SegmentView::Param(name@),
                        forall|q: int| 0 <= q < j ==> name@[q] != crate::path::SLASH,
                    decreases name.len() - j,
                {
                    if name[j] == crate::path::SLASH {
                        proof {
                            let txt = seg_text(want[i as int]);
                            assert(txt[j + 1] == name@[j as int]);
                            assert(!seg_wf(want[i as int]));
                        }
                        return None;
                    }
                    j += 1;
                }
                segs.push(Segment::Param(name));
                proof {
                    let txt = seg_text(want[i as int]);
                    assert forall|q: int| 0 <= q < txt.len() implies txt[q] != crate::path::SLASH by {
                        if 0 < q < txt.len() - 1 {
                            assert(txt[q] == name@[q - 1]);
                        }
                    }
                }
            },
        }
        i += 1;
    }
    let u = PathTemplate { segments: segs };
    assert(u@ =~= want);
    if params_unique_exec(&u) {
        Some(u)
    } else {
        None
    }
}

/// Whether a byte string has the placeholder form `{name}`.
fn is_braced_exec(p: &Vec<u8>) -> (r: bool)
    ensures
        r == is_braced(p@),
{
    let n = p.len();
    n >= 2 && p[0] == OPEN_BRACE && p[n - 1] == CLOSE_BRACE
}

/// Whether a template is well-formed.
pub fn template_wf_exec(t: &PathTemplate) -> (r: bool)
    ensures
        r == template_wf(t@),
{
    if t.segments.len() == 0 {
        return false;
    }
    let mut i: usize = 0;
    while i < t.segments.len()
        invariant
            0 <= i <= t.segments.len(),
            forall|k: int| 0 <= k < i ==> seg_wf(#[trigger] t@[k]),
        decreases t.segments.len() - i,
    {
        assert(t@[i as int] == t.segments@[i as int]@);
        let (text_ok, literal_ok) = match &t.segments[i] {
            Segment::Literal(l) => (crate::marshal::is_slash_free(l), !is_braced_exec(l)),
            Segment::Param(n) => (crate::marshal::is_slash_free(n), true),
        };
        proof {
            let s = t@[i as int];
            match s {
                SegmentView::Param(n) => {
                    let txt = seg_text(s);
                    if slash_free(n) {
                        assert forall|q: int| 0 <= q < txt.len() implies txt[q] != crate::path::SLASH by {
                            if 0 < q < txt.len() - 1 {
                                assert(txt[q] == n[q - 1]);
                            }
                        }
                    } else {
                        let q = choose|q: int| 0 <= q < n.len() && n[q] == crate::path::SLASH;
                        assert(txt[q + 1] == n[q]);
                    }
                },
                SegmentView::Literal(_) => {},
            }
        }
        if !text_ok || !literal_ok {
            return false;
        }
        i += 1;
    }
    params_unique_exec(t)
}

/// One entry of an endpoint's history: from `version` on, the endpoint is
/// served at `template`.
#[derive(Debug)]
pub struct HistoryEntry {
    pub version: Version,
    pub template: PathTemplate,
}

/// The versions of a history, in order.
pub open spec fn versions(h: Seq<HistoryEntry>) -> Seq<Version> {
    h.map_values(|e: HistoryEntry| e.version)
}

/// Versions strictly increasing along the sequence.
pub open spec fn strictly_increasing(vs: Seq<Version>) -> bool {
    forall|i: int, j: int| 0 <= i < j < vs.len() ==> version_lt(vs[i], vs[j])
}

/// The index of the newest entry whose version is no later than `v`, if any.
pub open spec fn resolved_index(vs: Seq<Version>, v: Version) -> Option<int>
    decreases vs.len(),
{
    if vs.len() == 0 {
        None
    } else if version_le(vs.last(), v) {
        Some(vs.len() - 1)
    } else {
        resolved_index(vs.drop_last(), v)
    }
}

/// A requested version older than every entry of the history.
#[derive(Debug, Clone, Copy, PartialEq, Eq, Structural)]
pub enum VersionResolutionError {
    Unsupported,
}

/// What an endpoint declares about itself: its method, its policy flags, and
/// its history of path templates.
#[derive(Debug)]
pub struct Metadata {
    pub method: Method,
    pub requires_authentication: bool,
    pub rate_limited: bool,
    pub history: Vec<HistoryEntry>,
}

impl Metadata {
    /// A non-empty history with strictly increasing versions and well-formed
    /// templates.
    pub open spec fn wf(&self) -> bool {
        &&& self.history@.len() > 0
        &&& strictly_increasing(versions(self.history@))
        &&& forall|i: int| 0 <= i < self.history@.len() ==> template_wf(#[trigger] self.history@[i].template@)
    }

    /// Metadata with a checked history: non-empty, with strictly increasing
    /// versions and well-formed templates.
    pub fn new(method: Method, requires_authentication: bool, rate_limited: bool, history: Vec<HistoryEntry>) -> (r: Option<Metadata>)
        ensures
            match r {
                Some(m) => m.wf() && m.method == method && m.requires_authentication == requires_authentication
                    && m.rate_limited == rate_limited && m.history == history,
                None => !(Metadata { method, requires_authentication, rate_limited, history }).wf(),
            },
    {
        let ghost vs = versions(history@);
        if history.len() == 0 {
            return None;
        }
        let mut i: usize = 0;
        while i < history.len()
            invariant
                0 <= i <= history.len(),
                vs == versions(history@),
                forall|a: int, b: int| 0 <= a < b < i ==> version_lt(vs[a], vs[b]),
                forall|k: int| 0 <= k < i ==> template_wf(#[trigger] history@[k].template@),
            decreases history.len() - i,
        {
            if !template_wf_exec(&history[i].template) {
                return None;
            }
            if i > 0 {
                let prev = history[i - 1].version;
                let cur = history[i].version;
                if cur.le(&prev) {
                    assert(!version_lt(vs[i - 1], vs[i as int]));
                    return None;
                }
                assert(version_lt(vs[i - 1], vs[i as int]));
                assert forall|a: int, b: int| 0 <= a < b < i + 1 implies version_lt(vs[a], vs[b]) by {
                    if b == i && a < i - 1 {
                        assert(version_lt(vs[a], vs[i - 1]));
                    }
                }
            }
            i += 1;
        }
        Some(Metadata { method, requires_authentication, rate_limited, history })
    }

    /// The declared authentication flag, for the policy layer.
    pub fn effective_auth(&self) -> (r: bool)
        ensures
            r == self.requires_authentication,
    {
        self.requires_authentication
    }

    /// The declared rate-limit flag, for the policy layer.
    pub fn effective_rate_limit(&self) -> (r: bool)
        ensures
            r == self.rate_limited,
    {
        self.rate_limited
    }

    /// The index of the history entry that serves version `v`: the newest
    /// entry no later than `v`.
    pub fn resolve_index(&self, v: Version) -> (r: Result<usize, VersionResolutionError>)
        ensures
            r matches Ok(i) ==> resolved_index(versions(self.history@), v) == Some(i as int) && i
                < self.history@.len(),
            r is Err <==> resolved_index(versions(self.history@), v) is None,
    {
        let ghost vs = versions(self.history@);
        let mut i: usize = self.history.len();
        assert(vs.subrange(0, i as int) =~= vs);
        while i > 0
            invariant
                0 <= i <= self.history@.len(),
                vs == versions(self.history@),
                resolved_index(vs, v) == resolved_index(vs.subrange(0, i as int), v),
            decreases i,
        {
            let ghost sub = vs.subrange(0, i as int);
            assert(sub.last() == self.history@[i - 1].version);
            assert(sub.drop_last() =~= vs.subrange(0, i - 1));
            if self.history[i - 1].version.le(&v) {
                return Ok(i - 1);
            }
            i -= 1;
        }
        assert(vs.subrange(0, 0).len() == 0);
        Err(VersionResolutionError::Unsupported)
    }

    /// The path template that serves version `v`.
    pub fn resolve(&self, v: Version) -> (r: Result<&PathTemplate, VersionResolutionError>)
        ensures
            r matches Ok(t) ==> exists|i: int| resolved_index(versions(self.history@), v) == Some(i)
                && t@ == self.history@[i].template@,
            r is Err <==> resolved_index(versions(self.history@), v) is None,
    {
        match self.resolve_index(v) {
            Ok(i) => {
                Ok(&self.history[i].template)
            },
            Err(e) => Err(e),
        }
    }
}

/// Resolution picks the greatest version no later than the one requested,
/// and fails exactly when the request is older than the first entry.
pub proof fn lemma_resolve_monotone(vs: Seq<Version>, v: Version)
    requires
        vs.len() > 0,
        strictly_increasing(vs),
    ensures
        resolved_index(vs, v) is None <==> version_lt(v, vs[0]),
        resolved_index(vs, v) matches Some(i) ==> 0 <= i < vs.len(),
        forall|i: int|
            0 <= i < vs.len() ==> (resolved_index(vs, v) == Some(i) <==> (version_le(#[trigger] vs[i], v)
                && (i + 1 == vs.len() || version_lt(v, vs[i + 1])))),
    decreases vs.len(),
{
    let last = vs.last();
    let d = vs.drop_last();
    if vs.len() > 1 {
        assert(strictly_increasing(d)) by {
            assert forall|i: int, j: int| 0 <= i < j < d.len() implies version_lt(d[i], d[j]) by {
                assert(d[i] == vs[i] && d[j] == vs[j]);
            }
        }
        lemma_resolve_monotone(d, v);
        assert(d[0] == vs[0]);
    } else {
        assert(resolved_index(d, v) is None);
    }
    assert forall|i: int|
        0 <= i < vs.len() implies (resolved_index(vs, v) == Some(i) <==> (version_le(#[trigger] vs[i], v)
            && (i + 1 == vs.len() || version_lt(v, vs[i + 1])))) by {
        if version_le(last, v) {
            if 0 <= i < vs.len() - 1 && version_le(vs[i], v) {
                if i + 1 < vs.len() - 1 {
                    assert(version_lt(vs[i + 1], last));
                }
            }
        } else if vs.len() > 1 {
            if 0 <= i < vs.len() - 1 {
                assert(d[i] == vs[i]);
                if i + 1 < d.len() {
                    assert(d[i + 1] == vs[i + 1]);
                }
            }
        }
    }
    if version_le(last, v) && vs.len() > 1 {
        assert(version_lt(vs[0], last));
    }
}

} // verus!
