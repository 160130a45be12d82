//! The body record as a JSON object: one member per written field, whose
//! value is the field's encoded JSON value.

use vstd::prelude::*;
use crate::bytes::append;
use crate::wire::{Pair, pairs_view};

verus! {

pub const QUOTE: u8 = 0x22;
pub const BACKSLASH: u8 = 0x5c;
pub const COLON: u8 = 0x3a;
pub const COMMA: u8 = 0x2c;
pub const LBRACE: u8 = 0x7b;
pub const RBRACE: u8 = 0x7d;
pub const LBRACKET: u8 = 0x5b;
pub const RBRACKET: u8 = 0x5d;

/// `pre` followed by the entries of `rest`, if any.
pub open spec fn prepend(pre: Seq<(Seq<u8>, Seq<u8>)>, rest: Option<Seq<(Seq<u8>, Seq<u8>)>>) -> Option<Seq<(Seq<u8>, Seq<u8>)>> {
    match rest {
        Some(r) => Some(pre + r),
        None => None,
    }
}

/// Where a scan of JSON text stands: nesting depth, inside a string, and
/// right after a backslash in a string.
pub ghost struct ScanState {
    pub depth: nat,
    pub in_str: bool,
    pub esc: bool,
}

/// The state at the start of a value.
pub open spec fn scan_start() -> ScanState {
    ScanState { depth: 0, in_str: false, esc: false }
}

/// The state after one more byte.
pub open spec fn step(s: ScanState, b: u8) -> ScanState {
    if s.in_str {
        if s.esc {
            ScanState { depth: s.depth, in_str: true, esc: false }
        } else if b == BACKSLASH {
            ScanState { depth: s.depth, in_str: true, esc: true }
        } else if b == QUOTE {
            ScanState { depth: s.depth, in_str: false, esc: false }
        } else {
            s
        }
    } else if b == QUOTE {
        ScanState { depth: s.depth, in_str: true, esc: false }
    } else if b == LBRACE || b == LBRACKET {
        ScanState { depth: s.depth + 1, in_str: false, esc: false }
    } else if b == RBRACE || b == RBRACKET {
        ScanState { depth: if s.depth > 0 { (s.depth - 1) as nat } else { 0 }, in_str: false, esc: false }
    } else {
        s
    }
}

/// Whether byte `b` ends a member's value when met in state `s`: a comma or
/// closing brace outside strings and nesting.
pub open spec fn is_stop(s: ScanState, b: u8) -> bool {
    !s.in_str && s.depth == 0 && (b == COMMA || b == RBRACE)
}

/// The state after the first `i` bytes of `v`.
pub open spec fn state_at(v: Seq<u8>, i: int) -> ScanState
    decreases i,
{
    if i <= 0 {
        scan_start()
    } else {
        step(state_at(v, i - 1), v[i - 1])
    }
}

/// A member value: non-empty, balanced, and with no comma or closing brace
/// outside its strings and nesting.
pub open spec fn json_value_ok(v: Seq<u8>) -> bool {
    &&& v.len() > 0
    &&& forall|i: int| 0 <= i < v.len() ==> !is_stop(#[trigger] state_at(v, i), v[i])
    &&& state_at(v, v.len() as int) == scan_start()
}

/// The index, from `i` on, of the byte that ends the value, if any.
pub open spec fn value_end_from(b: Seq<u8>, i: int, s: ScanState) -> Option<int>
    decreases b.len() - i,
{
    if i < 0 || i >= b.len() {
        None
    } else if is_stop(s, b[i]) {
        Some(i)
    } else {
        value_end_from(b, i + 1, step(s, b[i]))
    }
}

/// The index, from `i` on, of the next quote, if any.
pub open spec fn quote_from(b: Seq<u8>, i: int) -> Option<int>
    decreases b.len() - i,
{
    if i < 0 || i >= b.len() {
        None
    } else if b[i] == QUOTE {
        Some(i)
    } else {
        quote_from(b, i + 1)
    }
}

/// A member name: no quote and no backslash.
pub open spec fn name_ok(n: Seq<u8>) -> bool {
    forall|i: int| 0 <= i < n.len() ==> n[i] != QUOTE && n[i] != BACKSLASH
}

/// One member, `"name":value`.
pub open spec fn member(p: (Seq<u8>, Seq<u8>)) -> Seq<u8> {
    seq![QUOTE] + p.0 + seq![QUOTE, COLON] + p.1
}

/// The members, separated by commas.
pub open spec fn members(ps: Seq<(Seq<u8>, Seq<u8>)>) -> Seq<u8>
    decreases ps.len(),
{
    if ps.len() == 0 {
        Seq::empty()
    } else if ps.len() == 1 {
        member(ps[0])
    } else {
        members(ps.drop_last()) + seq![COMMA] + member(ps.last())
    }
}

/// The JSON object of the entries.
pub open spec fn json_record(ps: Seq<(Seq<u8>, Seq<u8>)>) -> Seq<u8> {
    seq![LBRACE] + members(ps) + seq![RBRACE]
}

/// Entries that can be written as members.
pub open spec fn json_entries_ok(ps: Seq<(Seq<u8>, Seq<u8>)>) -> bool {
    forall|i: int| 0 <= i < ps.len() ==> name_ok((#[trigger] ps[i]).0) && json_value_ok(ps[i].1)
}

/// The members of `b` up to and including the closing brace, which must end
/// `b`.
pub open spec fn parse_members(b: Seq<u8>) -> Option<Seq<(Seq<u8>, Seq<u8>)>>
    decreases b.len(),
{
    if b.len() == 0 || b[0] != QUOTE {
        None
    } else {
        match quote_from(b, 1) {
            None => None,
            Some(k) => {
                let name = b.subrange(1, k);
                if k < 1 || !name_ok(name) || k + 1 >= b.len() || b[k + 1] != COLON {
                    None
                } else {
                    match value_end_from(b, k + 2, scan_start()) {
                        None => None,
                        Some(e) => {
                            if e <= k + 2 || e >= b.len() {
                                None
                            } else {
                                let p = (name, b.subrange(k + 2, e));
                                if b[e] == RBRACE {
                                    if e + 1 == b.len() {
                                        Some(seq![p])
                                    } else {
                                        None
                                    }
                                } else {
                                    match parse_members(b.subrange(e + 1, b.len() as int)) {
                                        Some(rest) => Some(seq![p] + rest),
                                        None => None,
                                    }
                                }
                            }
                        },
                    }
                }
            },
        }
    }
}

/// The entries of a JSON object body.
pub open spec fn parse_record(b: Seq<u8>) -> Option<Seq<(Seq<u8>, Seq<u8>)>> {
    if b.len() < 2 || b[0] != LBRACE {
        None
    } else if b.len() == 2 && b[1] == RBRACE {
        Some(Seq::empty())
    } else {
        parse_members(b.subrange(1, b.len() as int))
    }
}

proof fn lemma_value_end(b: Seq<u8>, o: int, v: Seq<u8>, i: int)
    requires
        json_value_ok(v),
        0 <= o,
        o + v.len() < b.len(),
        b.subrange(o, o + v.len()) == v,
        b[o + v.len()] == COMMA || b[o + v.len()] == RBRACE,
        0 <= i <= v.len(),
    ensures
        value_end_from(b, o + i, state_at(v, i)) == Some(o + v.len()),
    decreases v.len() - i,
{
    if i < v.len() {
        assert(b[o + i] == v[i]);
        assert(!is_stop(state_at(v, i), v[i]));
        lemma_value_end(b, o, v, i + 1);
    }
}

proof fn lemma_quote_end(b: Seq<u8>, n: Seq<u8>, i: int)
    requires
        name_ok(n),
        1 + n.len() < b.len(),
        b.subrange(1, 1 + n.len() as int) == n,
        b[1 + n.len() as int] == QUOTE,
        0 <= i <= n.len(),
    ensures
        quote_from(b, 1 + i) == Some(1 + n.len() as int),
    decreases n.len() - i,
{
    if i < n.len() {
        assert(b[1 + i] == n[i]);
        lemma_quote_end(b, n, i + 1);
    }
}

proof fn lemma_members_front(ps: Seq<(Seq<u8>, Seq<u8>)>)
    requires
        ps.len() > 1,
    ensures
        members(ps) == member(ps[0]) + seq![COMMA] + members(ps.drop_first()),
    decreases ps.len(),
{
    if ps.len() == 2 {
        assert(ps.drop_last().len() == 1);
        assert(ps.drop_first().len() == 1);
        assert(members(ps.drop_last()) == member(ps[0]));
        assert(members(ps.drop_first()) == member(ps[1]));
        assert(members(ps) =~= member(ps[0]) + seq![COMMA] + members(ps.drop_first()));
    } else {
        lemma_members_front(ps.drop_last());
        assert(ps.drop_last().drop_first() =~= ps.drop_first().drop_last());
        assert(ps.drop_first().last() == ps.last());
        assert(members(ps) =~= member(ps[0]) + seq![COMMA] + members(ps.drop_first()));
    }
}

proof fn lemma_parse_members(ps: Seq<(Seq<u8>, Seq<u8>)>)
    requires
        ps.len() > 0,
        json_entries_ok(ps),
    ensures
        parse_members(members(ps) + seq![RBRACE]) == Some(ps),
    decreases ps.len(),
{
    let p = ps[0];
    assert(name_ok(p.0) && json_value_ok(p.1));
    let m = member(p);
    let tail: Seq<u8> = if ps.len() > 1 {
        seq![COMMA] + members(ps.drop_first()) + seq![RBRACE]
    } else {
        seq![RBRACE]
    };
    if ps.len() > 1 {
        lemma_members_front(ps);
    }
    let b = members(ps) + seq![RBRACE];
    assert(b =~= m + tail);
    let nl = p.0.len() as int;
    assert(b[0] == QUOTE);
    assert(b.subrange(1, 1 + nl) =~= p.0);
    assert(b[1 + nl] == QUOTE);
    lemma_quote_end(b, p.0, 0);
    let k = 1 + nl;
    assert(b[k + 1] == COLON);
    let o = k + 2;
    assert(b.subrange(o, o + p.1.len()) =~= p.1);
    let e = o + p.1.len();
    assert(b[e] == tail[0]);
    lemma_value_end(b, o, p.1, 0);
    assert(state_at(p.1, 0) == scan_start());
    assert(b.subrange(1, k) =~= p.0);
    if ps.len() > 1 {
        let rest = ps.drop_first();
        assert(json_entries_ok(rest)) by {
            assert forall|i: int| 0 <= i < rest.len() implies name_ok((#[trigger] rest[i]).0) && json_value_ok(rest[i].1) by {
                assert(rest[i] == ps[i + 1]);
            }
        }
        lemma_parse_members(rest);
        assert(b.subrange(e + 1, b.len() as int) =~= members(rest) + seq![RBRACE]);
        assert(seq![p] + rest =~= ps);
    } else {
        assert(e + 1 == b.len());
        assert(seq![p] =~= ps);
    }
}

/// Writing entries as a JSON object loses nothing: parsing the object gives
/// them back.
pub proof fn lemma_parse_json_record(ps: Seq<(Seq<u8>, Seq<u8>)>)
    requires
        json_entries_ok(ps),
    ensures
        parse_record(json_record(ps)) == Some(ps),
{
    let b = json_record(ps);
    if ps.len() == 0 {
        assert(members(ps) == Seq::<u8>::empty());
        assert(b =~= seq![LBRACE, RBRACE]);
        assert(ps =~= Seq::<(Seq<u8>, Seq<u8>)>::empty());
    } else {
        lemma_parse_members(ps);
        lemma_members_len(ps);
        assert(b.subrange(1, b.len() as int) =~= members(ps) + seq![RBRACE]);
    }
}

proof fn lemma_members_len(ps: Seq<(Seq<u8>, Seq<u8>)>)
    requires
        ps.len() > 0,
    ensures
        members(ps).len() >= 3,
    decreases ps.len(),
{
    if ps.len() > 1 {
        lemma_members_len(ps.drop_last());
    }
}

proof fn lemma_members_prefix_len(ps: Seq<(Seq<u8>, Seq<u8>)>, k: int)
    requires
        0 <= k <= ps.len(),
    ensures
        members(ps.subrange(0, k)).len() <= members(ps).len(),
    decreases ps.len(),
{
    if k < ps.len() {
        lemma_members_prefix_len(ps.drop_last(), k);
        assert(ps.drop_last().subrange(0, k) =~= ps.subrange(0, k));
    } else {
        assert(ps.subrange(0, k) =~= ps);
    }
}

/// Writes entries as a JSON object.
pub fn json_encode(ps: &Vec<Pair>) -> (r: Vec<u8>)
    requires
        json_record(pairs_view(ps@)).len() <= usize::MAX,
    ensures
        r@ == json_record(pairs_view(ps@)),
{
    let ghost pv = pairs_view(ps@);
    let mut out: Vec<u8> = Vec::new();
    out.push(LBRACE);
    let mut i: usize = 0;
    assert(pv.subrange(0, 0).len() == 0);
    assert(out@ =~= seq![LBRACE] + members(pv.subrange(0, 0)));
    while i < ps.len()
        invariant
            0 <= i <= ps.len(),
            pv == pairs_view(ps@),
            json_record(pv).len() <= usize::MAX,
            out@ == seq![LBRACE] + members(pv.subrange(0, i as int)),
        decreases ps.len() - i,
    {
        let ghost next = pv.subrange(0, i as int + 1);
        proof {
            assert(next.drop_last() =~= pv.subrange(0, i as int));
            assert(next.last() == ps@[i as int]@);
            lemma_members_prefix_len(pv, i as int + 1);
        }
        let ghost before = out@;
        if i > 0 {
            out.push(COMMA);
        }
        out.push(QUOTE);
        append(&mut out, &ps[i].name);
        out.push(QUOTE);
        out.push(COLON);
        append(&mut out, &ps[i].value);
        proof {
            if i == 0 {
                assert(next.len() == 1);
                assert(out@ =~= seq![LBRACE] + members(next));
            } else {
                assert(out@ =~= seq![LBRACE] + members(next));
            }
        }
        i += 1;
    }
    out.push(RBRACE);
    assert(pv.subrange(0, i as int) =~= pv);
    out
}

fn step_exec(depth: usize, in_str: bool, esc: bool, b: u8) -> (r: (usize, bool, bool))
    requires
        depth < usize::MAX,
    ensures
        step(ScanState { depth: depth as nat, in_str, esc }, b) == (ScanState { depth: r.0 as nat, in_str: r.1, esc: r.2 }),
        r.0 <= depth + 1,
{
    if in_str {
        if esc {
            (depth, true, false)
        } else if b == BACKSLASH {
            (depth, true, true)
        } else if b == QUOTE {
            (depth, false, false)
        } else {
            (depth, in_str, esc)
        }
    } else if b == QUOTE {
        (depth, true, false)
    } else if b == LBRACE || b == LBRACKET {
        (depth + 1, false, false)
    } else if b == RBRACE || b == RBRACKET {
        (if depth > 0 { depth - 1 } else { 0 }, false, false)
    } else {
        (depth, in_str, esc)
    }
}

fn slice_of(b: &Vec<u8>, from: usize, to: usize) -> (r: Vec<u8>)
    requires
        from <= to <= b@.len(),
    ensures
        r@ == b@.subrange(from as int, to as int),
{
    let mut out: Vec<u8> = Vec::new();
    let mut i: usize = from;
    while i < to
        invariant
            from <= i <= to <= b@.len(),
            out@ == b@.subrange(from as int, i as int),
        decreases to - i,
    {
        out.push(b[i]);
        i += 1;
        assert(out@ =~= b@.subrange(from as int, i as int));
    }
    out
}

fn is_name_ok(name: &Vec<u8>) -> (r: bool)
    ensures
        r == name_ok(name@),
{
    let mut t: usize = 0;
    while t < name.len()
        invariant
            0 <= t <= name.len(),
            forall|x: int| 0 <= x < t ==> name@[x] != QUOTE && name@[x] != BACKSLASH,
        decreases name.len() - t,
    {
        if name[t] == QUOTE || name[t] == BACKSLASH {
            return false;
        }
        t += 1;
    }
    true
}

/// Reads the entries of a JSON object body.
pub fn json_decode(b: &Vec<u8>) -> (r: Option<Vec<Pair>>)
    ensures
        match r {
            Some(ps) => parse_record(b@) == Some(pairs_view(ps@)),
            None => parse_record(b@) is None,
        },
{
    let n = b.len();
    if n < 2 || b[0] != LBRACE {
        return None;
    }
    let mut out: Vec<Pair> = Vec::new();
    if n == 2 && b[1] == RBRACE {
        assert(pairs_view(out@) =~= Seq::<(Seq<u8>, Seq<u8>)>::empty());
        return Some(out);
    }
    let mut pos: usize = 1;
    assert(pairs_view(out@) + Seq::<(Seq<u8>, Seq<u8>)>::empty() =~= pairs_view(out@));
    while pos < n
        invariant
            1 <= pos <= n,
            n == b@.len(),
            parse_record(b@) == prepend(pairs_view(out@), parse_members(b@.subrange(pos as int, n as int))),
        decreases n - pos,
    {
        let ghost rest = b@.subrange(pos as int, n as int);
        assert(rest[0] == b@[pos as int]);
        if b[pos] != QUOTE {
            return None;
        }
        let mut q: usize = pos + 1;
        while q < n && b[q] != QUOTE
            invariant
                pos < q <= n,
                n == b@.len(),
                rest == b@.subrange(pos as int, n as int),
                quote_from(rest, 1) == quote_from(rest, q - pos),
            decreases n - q,
        {
            assert(rest[q - pos] == b@[q as int]);
            q += 1;
        }
        if q == n {
            assert(quote_from(rest, q - pos) is None);
            return None;
        }
        assert(rest[q - pos] == b@[q as int]);
        let ghost k = q - pos;
        let name = slice_of(b, pos + 1, q);
        assert(name@ =~= rest.subrange(1, k));
        if !is_name_ok(&name) {
            return None;
        }
        if q + 1 >= n || b[q + 1] != COLON {
            proof {
                if q + 1 < n {
                    assert(rest[k + 1] == b@[q + 1]);
                }
            }
            return None;
        }
        assert(rest[k + 1] == b@[q + 1]);
        let v0 = q + 2;
        let mut j: usize = v0;
        let mut depth: usize = 0;
        let mut in_str = false;
        let mut esc = false;
        while j < n && !(!in_str && depth == 0 && (b[j] == COMMA || b[j] == RBRACE))
            invariant
                v0 <= j <= n,
                n == b@.len(),
                pos < v0,
                depth <= j - v0,
                rest == b@.subrange(pos as int, n as int),
                value_end_from(rest, v0 - pos, scan_start()) == value_end_from(rest, j - pos, ScanState { depth: depth as nat, in_str, esc }),
            decreases n - j,
        {
            assert(rest[j - pos] == b@[j as int]);
            let s = step_exec(depth, in_str, esc, b[j]);
            depth = s.0;
            in_str = s.1;
            esc = s.2;
            j += 1;
        }
        if j == n {
            return None;
        }
        assert(rest[j - pos] == b@[j as int]);
        let ghost e = j - pos;
        if j == v0 {
            return None;
        }
        let value = slice_of(b, v0, j);
        assert(value@ =~= rest.subrange(k + 2, e));
        let ghost before = pairs_view(out@);
        out.push(Pair { name, value });
        assert(pairs_view(out@) =~= before.push((name@, value@)));
        if b[j] == RBRACE {
            if j + 1 == n {
                assert(before + seq![(name@, value@)] =~= pairs_view(out@));
                return Some(out);
            }
            return None;
        }
        proof {
            assert(rest.subrange(e + 1, rest.len() as int) =~= b@.subrange(j + 1, n as int));
            match parse_members(b@.subrange(j + 1, n as int)) {
                Some(x) => {
                    assert(before + (seq![(name@, value@)] + x) =~= pairs_view(out@) + x);
                },
                None => {},
            }
        }
        pos = j + 1;
    }
    assert(b@.subrange(pos as int, n as int).len() == 0);
    None
}

} // verus!
