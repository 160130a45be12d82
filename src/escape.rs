//! Percent-escaping of path segment values.

use vstd::prelude::*;

verus! {

/// The escape introducer `%`.
pub const PERCENT: u8 = 0x25;

/// Bytes written as they stand: ASCII letters, digits, and `-._~`.
pub open spec fn unreserved(b: u8) -> bool {
    (0x41 <= b <= 0x5a) || (0x61 <= b <= 0x7a) || (0x30 <= b <= 0x39) || b == 0x2d || b == 0x2e
        || b == 0x5f || b == 0x7e
}

/// The upper-case hexadecimal digit of `n`, below 16.
pub open spec fn hex_digit(n: u8) -> u8 {
    if n < 10 {
        (0x30 + n) as u8
    } else {
        (0x41 + n - 10) as u8
    }
}

/// Whether a byte is a hexadecimal digit, of either case.
pub open spec fn is_hex(b: u8) -> bool {
    (0x30 <= b <= 0x39) || (0x41 <= b <= 0x46) || (0x61 <= b <= 0x66)
}

/// The value of a hexadecimal digit.
pub open spec fn hex_value(b: u8) -> u8 {
    if 0x30 <= b <= 0x39 {
        (b - 0x30) as u8
    } else if 0x41 <= b <= 0x46 {
        (b - 0x41 + 10) as u8
    } else {
        (b - 0x61 + 10) as u8
    }
}

/// How one byte is written.
pub open spec fn escape_byte(b: u8) -> Seq<u8> {
    if unreserved(b) {
        seq![b]
    } else {
        seq![PERCENT, hex_digit(b / 16), hex_digit(b % 16)]
    }
}

/// A value written as a path segment.
pub open spec fn escape(s: Seq<u8>) -> Seq<u8>
    decreases s.len(),
{
    if s.len() == 0 {
        Seq::empty()
    } else {
        escape(s.drop_last()) + escape_byte(s.last())
    }
}

/// The value a path segment writes, or `None` for a malformed escape.
pub open spec fn unescape(s: Seq<u8>) -> Option<Seq<u8>>
    decreases s.len(),
{
    if s.len() == 0 {
        Some(Seq::empty())
    } else if s[0] == PERCENT {
        if s.len() >= 3 && is_hex(s[1]) && is_hex(s[2]) {
            match unescape(s.subrange(3, s.len() as int)) {
                Some(r) => Some(seq![(hex_value(s[1]) * 16 + hex_value(s[2])) as u8] + r),
                None => None,
            }
        } else {
            None
        }
    } else {
        match unescape(s.subrange(1, s.len() as int)) {
            Some(r) => Some(seq![s[0]] + r),
            None => None,
        }
    }
}

proof fn lemma_hex_round(b: u8)
    ensures
        is_hex(hex_digit(b / 16)),
        is_hex(hex_digit(b % 16)),
        (hex_value(hex_digit(b / 16)) * 16 + hex_value(hex_digit(b % 16))) as u8 == b,
{
    assert(b / 16 < 16 && b % 16 < 16);
    assert((b / 16) * 16 + b % 16 == b);
}

proof fn lemma_escape_front(s: Seq<u8>)
    requires
        s.len() > 0,
    ensures
        escape(s) == escape_byte(s[0]) + escape(s.drop_first()),
    decreases s.len(),
{
    if s.len() == 1 {
        assert(s.drop_last().len() == 0);
        assert(escape(s.drop_last()) == Seq::<u8>::empty());
        assert(escape(s.drop_first()) == Seq::<u8>::empty());
        assert(s.last() == s[0]);
        assert(escape(s) =~= escape_byte(s[0]) + escape(s.drop_first()));
    } else {
        lemma_escape_front(s.drop_last());
        assert(s.drop_last().drop_first() =~= s.drop_first().drop_last());
        assert(s.drop_first().last() == s.last());
        assert(escape(s) =~= escape_byte(s[0]) + escape(s.drop_first()));
    }
}

/// Escaping loses nothing: unescaping an escaped value gives it back.
pub proof fn lemma_unescape_escape(s: Seq<u8>)
    ensures
        unescape(escape(s)) == Some(s),
    decreases s.len(),
{
    if s.len() == 0 {
        assert(s =~= Seq::<u8>::empty());
    } else {
        lemma_escape_front(s);
        let t = s.drop_first();
        lemma_unescape_escape(t);
        let e = escape(s);
        let b = s[0];
        if unreserved(b) {
            assert(e[0] == b);
            assert(e.subrange(1, e.len() as int) =~= escape(t));
        } else {
            lemma_hex_round(b);
            assert(e[0] == PERCENT && e[1] == hex_digit(b / 16) && e[2] == hex_digit(b % 16));
            assert(e.subrange(3, e.len() as int) =~= escape(t));
        }
        assert(seq![b] + t =~= s);
    }
}

/// Escaping never writes a separator.
pub proof fn lemma_escape_slash_free(s: Seq<u8>)
    ensures
        forall|i: int| 0 <= i < escape(s).len() ==> escape(s)[i] != crate::path::SLASH,
    decreases s.len(),
{
    if s.len() > 0 {
        lemma_escape_slash_free(s.drop_last());
        let b = s.last();
        let a = escape(s.drop_last());
        let e = escape_byte(b);
        assert(b / 16 < 16 && b % 16 < 16);
        assert forall|i: int| 0 <= i < e.len() implies e[i] != crate::path::SLASH by {}
        assert forall|i: int| 0 <= i < escape(s).len() implies escape(s)[i] != crate::path::SLASH by {
            if i < a.len() {
                assert(escape(s)[i] == a[i]);
            } else {
                assert(escape(s)[i] == e[i - a.len()]);
            }
        }
    }
}

fn hex_digit_exec(n: u8) -> (r: u8)
    requires
        n < 16,
    ensures
        r == hex_digit(n),
{
    if n < 10 {
        0x30 + n
    } else {
        0x41 + n - 10
    }
}

/// Writes a value as a path segment, escaping every byte that is not
/// unreserved as `%` and two upper-case hexadecimal digits.
pub fn escape_segment(v: &Vec<u8>) -> (r: Vec<u8>)
    requires
        escape(v@).len() <= usize::MAX,
    ensures
        r@ == escape(v@),
{
    let mut out: Vec<u8> = Vec::new();
    let mut i: usize = 0;
    while i < v.len()
        invariant
            0 <= i <= v.len(),
            out@ == escape(v@.subrange(0, i as int)),
            escape(v@).len() <= usize::MAX,
        decreases v.len() - i,
    {
        let ghost next = v@.subrange(0, i as int + 1);
        assert(next.drop_last() =~= v@.subrange(0, i as int));
        assert(next.last() == v@[i as int]);
        let b = v[i];
        if (0x41 <= b && b <= 0x5a) || (0x61 <= b && b <= 0x7a) || (0x30 <= b && b <= 0x39) || b
            == 0x2d || b == 0x2e || b == 0x5f || b == 0x7e {
            out.push(b);
        } else {
            out.push(PERCENT);
            out.push(hex_digit_exec(b / 16));
            out.push(hex_digit_exec(b % 16));
        }
        assert(out@ =~= escape(next));
        i += 1;
    }
    assert(v@.subrange(0, i as int) =~= v@);
    out
}

fn is_hex_exec(b: u8) -> (r: bool)
    ensures
        r == is_hex(b),
{
    (0x30 <= b && b <= 0x39) || (0x41 <= b && b <= 0x46) || (0x61 <= b && b <= 0x66)
}

fn hex_value_exec(b: u8) -> (r: u8)
    requires
        is_hex(b),
    ensures
        r == hex_value(b),
        r < 16,
{
    if 0x30 <= b && b <= 0x39 {
        b - 0x30
    } else if 0x41 <= b && b <= 0x46 {
        b - 0x41 + 10
    } else {
        b - 0x61 + 10
    }
}

/// `pre` followed by `rest`, if any.
pub open spec fn prepend_bytes(pre: Seq<u8>, rest: Option<Seq<u8>>) -> Option<Seq<u8>> {
    match rest {
        Some(r) => Some(pre + r),
        None => None,
    }
}

/// Reads the value of a path segment, undoing its escapes.
pub fn unescape_segment(s: &Vec<u8>) -> (r: Option<Vec<u8>>)
    ensures
        match r {
            Some(v) => unescape(s@) == Some(v@),
            None => unescape(s@) is None,
        },
{
    let n = s.len();
    let mut out: Vec<u8> = Vec::new();
    let mut i: usize = 0;
    assert(s@.subrange(0, n as int) =~= s@);
    assert(out@ + Seq::<u8>::empty() =~= out@);
    while i < n
        invariant
            0 <= i <= n,
            n == s@.len(),
            unescape(s@) == prepend_bytes(out@, unescape(s@.subrange(i as int, n as int))),
        decreases n - i,
    {
        let ghost rest = s@.subrange(i as int, n as int);
        let ghost before = out@;
        if s[i] == PERCENT {
            if n - i < 3 || !is_hex_exec(s[i + 1]) || !is_hex_exec(s[i + 2]) {
                return None;
            }
            let hi = hex_value_exec(s[i + 1]);
            let lo = hex_value_exec(s[i + 2]);
            let b: u8 = hi * 16 + lo;
            out.push(b);
            proof {
                assert(rest[1] == s@[i + 1] && rest[2] == s@[i + 2]);
                assert(rest.subrange(3, rest.len() as int) =~= s@.subrange(i + 3, n as int));
                match unescape(s@.subrange(i + 3, n as int)) {
                    Some(x) => {
                        assert(before + (seq![b] + x) =~= out@ + x);
                    },
                    None => {},
                }
            }
            i += 3;
        } else {
            out.push(s[i]);
            proof {
                assert(rest.subrange(1, rest.len() as int) =~= s@.subrange(i + 1, n as int));
                match unescape(s@.subrange(i + 1, n as int)) {
                    Some(x) => {
                        assert(before + (seq![s@[i as int]] + x) =~= out@ + x);
                    },
                    None => {},
                }
            }
            i += 1;
        }
    }
    assert(out@ + Seq::<u8>::empty() =~= out@);
    Some(out)
}

} // verus!
