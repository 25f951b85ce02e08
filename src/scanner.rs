//! Byte scanner: primitives that consume a prefix of an immutable byte slice
//! and return the remaining slice (and a value), or `None` without consuming
//! anything.
use vstd::prelude::*;

verus! {

pub const SPACE: u8 = 32;
pub const TAB: u8 = 9;
pub const NEWLINE: u8 = 10;
pub const COLON: u8 = 58;

/// A space or a tab.
pub open spec fn is_blank(b: u8) -> bool {
    b == 32 || b == 9
}

/// ASCII whitespace: space, tab, line feed, form feed, carriage return.
pub open spec fn is_space(b: u8) -> bool {
    b == 32 || b == 9 || b == 10 || b == 12 || b == 13
}

pub open spec fn is_digit(b: u8) -> bool {
    48 <= b <= 57
}

pub open spec fn is_hex_digit(b: u8) -> bool {
    (48 <= b <= 57) || (65 <= b <= 70) || (97 <= b <= 102)
}

pub open spec fn hex_digit_value(b: u8) -> nat {
    if 48 <= b <= 57 {
        (b - 48) as nat
    } else if 65 <= b <= 70 {
        (b - 55) as nat
    } else {
        (b - 87) as nat
    }
}

/// A class of bytes that a scan runs over.
pub enum ByteClass {
    Space,
    NotNewline,
    Digit,
}

impl ByteClass {
    pub open spec fn pred(self) -> spec_fn(u8) -> bool {
        match self {
            ByteClass::Space => |b: u8| is_space(b),
            ByteClass::NotNewline => |b: u8| b != 10,
            ByteClass::Digit => |b: u8| is_digit(b),
        }
    }

    fn holds(&self, b: u8) -> (r: bool)
        ensures
            r == self.pred()(b),
    {
        match self {
            ByteClass::Space => b == SPACE || b == TAB || b == NEWLINE || b == 12 || b == 13,
            ByteClass::NotNewline => b != NEWLINE,
            ByteClass::Digit => 48 <= b && b <= 57,
        }
    }
}

/// Length of the longest prefix of `s` whose bytes all satisfy `p`.
pub open spec fn span_len(s: Seq<u8>, p: spec_fn(u8) -> bool) -> nat
    decreases s.len(),
{
    if s.len() == 0 {
        0
    } else if !p(s[0]) {
        0
    } else {
        1 + span_len(s.drop_first(), p)
    }
}

/// Value of a run of decimal digits, most significant first.
pub open spec fn decimal_value(s: Seq<u8>) -> nat
    decreases s.len(),
{
    if s.len() == 0 {
        0
    } else {
        decimal_value(s.drop_last()) * 10 + (s.last() - 48) as nat
    }
}

/// Value of a run of hex digits, most significant first.
pub open spec fn hex_value(s: Seq<u8>) -> nat
    decreases s.len(),
{
    if s.len() == 0 {
        0
    } else {
        hex_value(s.drop_last()) * 16 + hex_digit_value(s.last())
    }
}

pub open spec fn all_hex(s: Seq<u8>) -> bool {
    forall|i: int| 0 <= i < s.len() ==> is_hex_digit(#[trigger] s[i])
}

pub open spec fn spec_whitespace(s: Seq<u8>) -> Option<Seq<u8>> {
    if s.len() > 0 && is_blank(s[0]) {
        Some(s.subrange(1 + span_len(s.drop_first(), ByteClass::Space.pred()) as int, s.len() as int))
    } else {
        None
    }
}

/// A fixed-width hex field of `width` digits at the front of `s`.
pub open spec fn spec_hex_field(s: Seq<u8>, width: nat) -> Option<(Seq<u8>, nat)> {
    if s.len() >= width && all_hex(s.subrange(0, width as int)) {
        Some((s.subrange(width as int, s.len() as int), hex_value(s.subrange(0, width as int))))
    } else {
        None
    }
}

pub open spec fn spec_hex_u8(s: Seq<u8>) -> Option<(Seq<u8>, u8)> {
    match spec_hex_field(s, 2) {
        Some((rest, v)) => Some((rest, v as u8)),
        None => None,
    }
}

pub open spec fn spec_hex_u16(s: Seq<u8>) -> Option<(Seq<u8>, u16)> {
    match spec_hex_field(s, 4) {
        Some((rest, v)) => Some((rest, v as u16)),
        None => None,
    }
}

pub open spec fn spec_colon(s: Seq<u8>) -> Option<Seq<u8>> {
    if s.len() > 0 && s[0] == 58 {
        Some(s.drop_first())
    } else {
        None
    }
}

/// Length of the first line of `s`, without its newline.
pub open spec fn line_len(s: Seq<u8>) -> nat {
    span_len(s, ByteClass::NotNewline.pred())
}

pub open spec fn spec_consume_until_newline(s: Seq<u8>) -> Seq<u8> {
    if line_len(s) < s.len() {
        s.subrange(line_len(s) + 1 as int, s.len() as int)
    } else {
        Seq::empty()
    }
}

pub open spec fn spec_decimal(s: Seq<u8>) -> Option<(Seq<u8>, u32)> {
    let k = span_len(s, ByteClass::Digit.pred());
    if k == 0 || decimal_value(s.subrange(0, k as int)) > u32::MAX {
        None
    } else {
        Some((s.subrange(k as int, s.len() as int), decimal_value(s.subrange(0, k as int)) as u32))
    }
}

proof fn lemma_span_step(s: Seq<u8>, i: int, p: spec_fn(u8) -> bool)
    requires
        0 <= i < s.len(),
    ensures
        p(s[i]) ==> span_len(s.subrange(i, s.len() as int), p) == 1 + span_len(
            s.subrange(i + 1, s.len() as int),
            p,
        ),
        !p(s[i]) ==> span_len(s.subrange(i, s.len() as int), p) == 0,
{
    assert(s.subrange(i, s.len() as int).drop_first() =~= s.subrange(i + 1, s.len() as int));
}

/// The span is a prefix of `s`, every byte in it satisfies `p`, and the byte
/// after it (if any) does not.
pub proof fn lemma_span_len(s: Seq<u8>, p: spec_fn(u8) -> bool)
    ensures
        span_len(s, p) <= s.len(),
        forall|i: int| 0 <= i < span_len(s, p) ==> p(#[trigger] s[i]),
        span_len(s, p) < s.len() ==> !p(s[span_len(s, p) as int]),
    decreases s.len(),
{
    if s.len() > 0 && p(s[0]) {
        lemma_span_len(s.drop_first(), p);
        assert forall|i: int| 0 <= i < span_len(s, p) implies p(#[trigger] s[i]) by {
            if i > 0 {
                assert(s[i] == s.drop_first()[i - 1]);
            }
        }
    }
}

/// Index of the end of the run of `class` bytes that starts at `start`.
fn span_end(st: &[u8], start: usize, class: ByteClass) -> (k: usize)
    requires
        start <= st@.len(),
    ensures
        start <= k <= st@.len(),
        k - start == span_len(st@.subrange(start as int, st@.len() as int), class.pred()),
{
    let mut i: usize = start;
    while i < st.len() && class.holds(st[i])
        invariant
            start <= i <= st@.len(),
            span_len(st@.subrange(start as int, st@.len() as int), class.pred()) == (i - start)
                + span_len(st@.subrange(i as int, st@.len() as int), class.pred()),
        decreases st@.len() - i,
    {
        proof {
            lemma_span_step(st@, i as int, class.pred());
        }
        i = i + 1;
    }
    proof {
        if i < st@.len() {
            lemma_span_step(st@, i as int, class.pred());
        }
    }
    i
}

/// Length of the first line of `st`, without its newline.
pub fn line_length(st: &[u8]) -> (k: usize)
    ensures
        k == line_len(st@),
        k <= st@.len(),
{
    let k = span_end(st, 0, ByteClass::NotNewline);
    assert(st@.subrange(0, st@.len() as int) =~= st@);
    k
}

/// Expects at least one space or tab, then consumes any further whitespace.
pub fn whitespace(st: &[u8]) -> (r: Option<&[u8]>)
    ensures
        r matches Some(rest) ==> spec_whitespace(st@) == Some(rest@),
        r is None ==> spec_whitespace(st@) is None,
{
    if st.len() == 0 || (st[0] != SPACE && st[0] != TAB) {
        return None;
    }
    let k = span_end(st, 1, ByteClass::Space);
    assert(st@.drop_first() =~= st@.subrange(1, st@.len() as int));
    Some(&st[k..st.len()])
}

/// Expects and consumes a colon.
pub fn colon(st: &[u8]) -> (r: Option<&[u8]>)
    ensures
        r matches Some(rest) ==> spec_colon(st@) == Some(rest@),
        r is None ==> spec_colon(st@) is None,
{
    if st.len() > 0 && st[0] == COLON {
        assert(st@.drop_first() =~= st@.subrange(1, st@.len() as int));
        Some(&st[1..st.len()])
    } else {
        None
    }
}

/// Consumes everything up to and including the first newline. Never fails;
/// without a newline the result is empty.
pub fn consume_until_newline(st: &[u8]) -> (r: &[u8])
    ensures
        r@ == spec_consume_until_newline(st@),
{
    let k = span_end(st, 0, ByteClass::NotNewline);
    assert(st@.subrange(0, st@.len() as int) =~= st@);
    if k < st.len() {
        &st[k + 1..st.len()]
    } else {
        assert(st@.subrange(k as int, st@.len() as int) =~= Seq::<u8>::empty());
        &st[k..st.len()]
    }
}

proof fn lemma_hex_value_2(s: Seq<u8>)
    requires
        s.len() == 2,
    ensures
        hex_value(s) == hex_digit_value(s[0]) * 16 + hex_digit_value(s[1]),
{
    let first = s.drop_last();
    assert(first.drop_last() =~= Seq::<u8>::empty());
    assert(hex_value(first.drop_last()) == 0);
    assert(first.last() == s[0]);
    assert(hex_value(first) == hex_digit_value(s[0]));
}

proof fn lemma_hex_value_4(s: Seq<u8>)
    requires
        s.len() == 4,
    ensures
        hex_value(s) == hex_value(s.subrange(0, 2)) * 256 + hex_value(s.subrange(2, 4)),
{
    let a = s.subrange(0, 2);
    let b = s.subrange(2, 4);
    lemma_hex_value_2(a);
    lemma_hex_value_2(b);
    lemma_hex_value_2(s.drop_last().drop_last());
    assert(s.drop_last().drop_last() =~= a);
    assert(hex_value(s.drop_last()) == hex_value(a) * 16 + hex_digit_value(s[2]));
}

fn hex_digit(b: u8) -> (r: Option<u8>)
    ensures
        r is Some <==> is_hex_digit(b),
        r matches Some(v) ==> v == hex_digit_value(b) && v < 16,
{
    if 48 <= b && b <= 57 {
        Some(b - 48)
    } else if 65 <= b && b <= 70 {
        Some(b - 55)
    } else if 97 <= b && b <= 102 {
        Some(b - 87)
    } else {
        None
    }
}

/// Reads two hex digits as a byte.
pub fn hex_u8(st: &[u8]) -> (r: Option<(&[u8], u8)>)
    ensures
        r matches Some((rest, v)) ==> spec_hex_u8(st@) == Some((rest@, v)),
        r is None ==> spec_hex_u8(st@) is None,
{
    if st.len() < 2 {
        return None;
    }
    let ghost head = st@.subrange(0, 2);
    let hi = match hex_digit(st[0]) {
        Some(d) => d,
        None => {
            assert(!is_hex_digit(head[0]));
            return None;
        },
    };
    let lo = match hex_digit(st[1]) {
        Some(d) => d,
        None => {
            assert(!is_hex_digit(head[1]));
            return None;
        },
    };
    proof {
        lemma_hex_value_2(head);
        assert(all_hex(head));
    }
    Some((&st[2..st.len()], hi * 16 + lo))
}

/// Reads four hex digits as a 16-bit value.
pub fn hex_u16(st: &[u8]) -> (r: Option<(&[u8], u16)>)
    ensures
        r matches Some((rest, v)) ==> spec_hex_u16(st@) == Some((rest@, v)),
        r is None ==> spec_hex_u16(st@) is None,
{
    if st.len() < 4 {
        return None;
    }
    let ghost head = st@.subrange(0, 4);
    proof {
        assert(head.subrange(0, 2) =~= st@.subrange(0, 2));
        assert(head.subrange(2, 4) =~= st@.subrange(2, st@.len() as int).subrange(0, 2));
        lemma_hex_value_4(head);
        assert(all_hex(head) <==> (all_hex(head.subrange(0, 2)) && all_hex(head.subrange(2, 4))))
            by {
            if all_hex(head.subrange(0, 2)) && all_hex(head.subrange(2, 4)) {
                assert forall|i: int| 0 <= i < head.len() implies is_hex_digit(#[trigger] head[i]) by {
                    if i < 2 {
                        assert(head[i] == head.subrange(0, 2)[i]);
                    } else {
                        assert(head[i] == head.subrange(2, 4)[i - 2]);
                    }
                }
            }
            if all_hex(head) {
                assert forall|i: int| 0 <= i < 2 implies is_hex_digit(#[trigger] head.subrange(0, 2)[i]) by {
                    assert(head[i] == head.subrange(0, 2)[i]);
                }
                assert forall|i: int| 0 <= i < 2 implies is_hex_digit(#[trigger] head.subrange(2, 4)[i]) by {
                    assert(head[i + 2] == head.subrange(2, 4)[i]);
                }
            }
        }
    }
    let (mid, hi) = match hex_u8(st) {
        Some(p) => p,
        None => {
            assert(!all_hex(head.subrange(0, 2)));
            return None;
        },
    };
    let (rest, lo) = match hex_u8(mid) {
        Some(p) => p,
        None => {
            assert(!all_hex(head.subrange(2, 4)));
            return None;
        },
    };
    assert(rest@ =~= st@.subrange(4, st@.len() as int));
    proof {
        let a = head.subrange(0, 2);
        let b = head.subrange(2, 4);
        assert(mid@.subrange(0, 2) =~= b);
        lemma_hex_value_2(a);
        lemma_hex_value_2(b);
        assert(is_hex_digit(a[0]) && is_hex_digit(a[1]) && is_hex_digit(b[0]) && is_hex_digit(b[1]));
        assert(hex_value(a) < 256 && hex_value(b) < 256);
        assert(hi == hex_value(a) && lo == hex_value(b));
    }
    Some((rest, hi as u16 * 256 + lo as u16))
}

proof fn lemma_decimal_prefix_monotone(s: Seq<u8>, j: int, k: int)
    requires
        0 <= j <= k <= s.len(),
    ensures
        decimal_value(s.subrange(0, j)) <= decimal_value(s.subrange(0, k)),
    decreases k - j,
{
    if j < k {
        lemma_decimal_prefix_monotone(s, j, k - 1);
        assert(s.subrange(0, k).drop_last() =~= s.subrange(0, k - 1));
    }
}

/// Reads the longest run of decimal digits as an unsigned 32-bit number;
/// fails when there is no digit or the value does not fit.
pub fn decimal(st: &[u8]) -> (r: Option<(&[u8], u32)>)
    ensures
        r matches Some((rest, v)) ==> spec_decimal(st@) == Some((rest@, v)),
        r is None ==> spec_decimal(st@) is None,
{
    let k = span_end(st, 0, ByteClass::Digit);
    assert(st@.subrange(0, st@.len() as int) =~= st@);
    if k == 0 {
        return None;
    }
    proof {
        lemma_span_len(st@, ByteClass::Digit.pred());
    }
    let mut v: u32 = 0;
    let mut i: usize = 0;
    while i < k
        invariant
            0 <= i <= k <= st@.len(),
            k == span_len(st@, ByteClass::Digit.pred()),
            forall|j: int| 0 <= j < k ==> is_digit(#[trigger] st@[j]),
            v == decimal_value(st@.subrange(0, i as int)),
        decreases k - i,
    {
        assert(is_digit(st@[i as int]));
        assert(st@.subrange(0, i + 1).drop_last() =~= st@.subrange(0, i as int));
        let w: u64 = v as u64 * 10 + (st[i] - 48) as u64;
        if w > u32::MAX as u64 {
            proof {
                lemma_decimal_prefix_monotone(st@, i + 1, k as int);
            }
            return None;
        }
        v = w as u32;
        i = i + 1;
    }
    Some((&st[k..st.len()], v))
}

/// The uppercase hex digit for a value below 16.
pub open spec fn hex_char(n: nat) -> u8 {
    if n < 10 {
        (48 + n) as u8
    } else {
        (55 + n) as u8
    }
}

/// A 16-bit value written as four hex digits, most significant first.
pub open spec fn encode_hex16(v: u16) -> Seq<u8> {
    seq![
        hex_char((v / 4096) as nat),
        hex_char(((v / 256) % 16) as nat),
        hex_char(((v / 16) % 16) as nat),
        hex_char((v % 16) as nat),
    ]
}

/// Writing any 16-bit value as four hex digits and reading it back with
/// `hex_u16` gives the value, and leaves what followed the digits.
pub proof fn lemma_hex16_round_trip(v: u16, rest: Seq<u8>)
    ensures
        spec_hex_u16(encode_hex16(v) + rest) == Some((rest, v)),
{
    let e = encode_hex16(v);
    let s = e + rest;
    let head = s.subrange(0, 4);
    assert(head =~= e);
    assert(s.subrange(4, s.len() as int) =~= rest);
    let d0 = (v / 4096) as nat;
    let d1 = ((v / 256) % 16) as nat;
    let d2 = ((v / 16) % 16) as nat;
    let d3 = (v % 16) as nat;
    assert(d0 < 16 && d1 < 16 && d2 < 16 && d3 < 16);
    assert(hex_digit_value(hex_char(d0)) == d0);
    assert(hex_digit_value(hex_char(d1)) == d1);
    assert(hex_digit_value(hex_char(d2)) == d2);
    assert(hex_digit_value(hex_char(d3)) == d3);
    assert(all_hex(e));
    lemma_hex_value_4(e);
    lemma_hex_value_2(e.subrange(0, 2));
    lemma_hex_value_2(e.subrange(2, 4));
    assert(hex_value(e) == (d0 * 16 + d1) * 256 + d2 * 16 + d3);
    assert((d0 * 16 + d1) * 256 + d2 * 16 + d3 == v) by (nonlinear_arith)
        requires
            d0 == v / 4096,
            d1 == (v / 256) % 16,
            d2 == (v / 16) % 16,
            d3 == v % 16,
            0 <= v < 65536,
    ;
}

proof fn lemma_span_of_run(run: Seq<u8>, tail: Seq<u8>, p: spec_fn(u8) -> bool)
    requires
        forall|i: int| 0 <= i < run.len() ==> p(#[trigger] run[i]),
        tail.len() == 0 || !p(tail[0]),
    ensures
        span_len(run + tail, p) == run.len(),
    decreases run.len(),
{
    if run.len() > 0 {
        assert((run + tail).drop_first() =~= run.drop_first() + tail);
        assert forall|i: int| 0 <= i < run.drop_first().len() implies p(
            #[trigger] run.drop_first()[i],
        ) by {
            assert(run.drop_first()[i] == run[i + 1]);
        }
        lemma_span_of_run(run.drop_first(), tail, p);
    } else {
        assert(run + tail =~= tail);
    }
}

/// A non-empty run of digits whose value fits in 32 bits, followed by a
/// byte that is no digit, is read as that value, and the byte and what
/// follows it are left. Input that is empty or starts with no digit fails.
pub proof fn lemma_decimal_digit_run(digits: Seq<u8>, stop: u8, rest: Seq<u8>)
    requires
        digits.len() > 0,
        forall|i: int| 0 <= i < digits.len() ==> is_digit(#[trigger] digits[i]),
        !is_digit(stop),
        decimal_value(digits) <= u32::MAX,
    ensures
        spec_decimal(digits + (seq![stop] + rest)) == Some(
            (seq![stop] + rest, decimal_value(digits) as u32),
        ),
        spec_decimal(Seq::empty()) is None,
        spec_decimal(seq![stop] + rest) is None,
{
    let tail = seq![stop] + rest;
    let s = digits + tail;
    lemma_span_of_run(digits, tail, ByteClass::Digit.pred());
    assert(s.subrange(0, digits.len() as int) =~= digits);
    assert(s.subrange(digits.len() as int, s.len() as int) =~= tail);
    assert(tail[0] == stop);
}

/// `whitespace` fails exactly on input that is empty or starts with neither
/// a space nor a tab; otherwise it consumes the whole run of whitespace at
/// the front and nothing more.
pub proof fn lemma_whitespace_consumes_run(s: Seq<u8>)
    ensures
        spec_whitespace(s) is None <==> (s.len() == 0 || !is_blank(s[0])),
        spec_whitespace(s) matches Some(rest) ==> {
            let k = s.len() - rest.len();
            &&& 1 <= k <= s.len()
            &&& rest == s.subrange(k, s.len() as int)
            &&& forall|i: int| 0 <= i < k ==> is_space(#[trigger] s[i])
            &&& (rest.len() == 0 || !is_space(rest[0]))
        },
{
    if s.len() > 0 && is_blank(s[0]) {
        let t = s.drop_first();
        lemma_span_len(t, ByteClass::Space.pred());
        let n = span_len(t, ByteClass::Space.pred());
        let rest = s.subrange(1 + n as int, s.len() as int);
        assert forall|i: int| 0 <= i < 1 + n implies is_space(#[trigger] s[i]) by {
            if i > 0 {
                assert(s[i] == t[i - 1]);
            }
        }
        if rest.len() > 0 {
            assert(rest[0] == t[n as int]);
        }
    }
}

/// `consume_until_newline` gives nothing when the input holds no newline,
/// and otherwise exactly what follows the first newline.
pub proof fn lemma_consume_until_newline(s: Seq<u8>)
    ensures
        (forall|i: int| 0 <= i < s.len() ==> #[trigger] s[i] != 10)
            ==> spec_consume_until_newline(s) == Seq::<u8>::empty(),
        forall|k: int|
            0 <= k < s.len() && #[trigger] s[k] == 10 && (forall|i: int| 0 <= i < k ==> s[i] != 10)
                ==> spec_consume_until_newline(s) == s.subrange(k + 1, s.len() as int),
{
    lemma_span_len(s, ByteClass::NotNewline.pred());
    let n = line_len(s);
    assert forall|k: int|
        0 <= k < s.len() && #[trigger] s[k] == 10 && (forall|i: int| 0 <= i < k ==> s[i] != 10)
            implies spec_consume_until_newline(s) == s.subrange(k + 1, s.len() as int) by {
        if n < k {
            assert(s[n as int] != 10);
        }
        if k < n {
            assert(ByteClass::NotNewline.pred()(s[k]));
        }
    }
    if forall|i: int| 0 <= i < s.len() ==> #[trigger] s[i] != 10 {
        if n < s.len() {
            assert(s[n as int] != 10);
        }
    }
}

} // verus!
