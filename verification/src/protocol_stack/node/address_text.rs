use vstd::prelude::*;
use crate::protocol_stack::node::NodeAddress;
use crate::protocol_stack::{BlockType, SecondLayerHeader};

verus! {

/// `|` and `.` part the pieces of an address's text.
pub open spec fn is_separator(b: u8) -> bool {
    b == 124 || b == 46
}

/// Where the first separator stands in `s`; the length of `s` if none does.
pub open spec fn separator_index(s: Seq<u8>) -> int
    decreases s.len(),
{
    if s.len() == 0 {
        0
    } else if is_separator(s[0]) {
        0
    } else {
        1 + separator_index(s.drop_first())
    }
}

/// The `k`th piece of `s` between separators, counted from nought, if `s`
/// has that many.
pub open spec fn nth_piece(s: Seq<u8>, k: nat) -> Option<Seq<u8>>
    decreases k,
{
    let i = separator_index(s);
    if k == 0 {
        Some(s.subrange(0, i))
    } else if i >= s.len() {
        None
    } else {
        nth_piece(s.subrange(i + 1, s.len() as int), (k - 1) as nat)
    }
}

pub open spec fn is_digit(b: u8) -> bool {
    48 <= b <= 57
}

/// The number the decimal digits `d` write.
pub open spec fn digits_value(d: Seq<u8>) -> nat
    decreases d.len(),
{
    if d.len() == 0 {
        0
    } else {
        digits_value(d.drop_last()) * 10 + (d.last() - 48) as nat
    }
}

/// The text without the `+` it may start with.
pub open spec fn unsigned_digits(p: Seq<u8>) -> Seq<u8> {
    if p.len() > 0 && p[0] == 43 { p.drop_first() } else { p }
}

pub open spec fn all_digits(d: Seq<u8>) -> bool {
    forall|i: int| 0 <= i < d.len() ==> is_digit(#[trigger] d[i])
}

/// The number a piece of text writes: decimal digits, at least one, after an
/// optional `+`, that fit in a `u32`.
pub open spec fn parsed_u32(p: Seq<u8>) -> Option<u32> {
    let d = unsigned_digits(p);
    if d.len() > 0 && all_digits(d) && digits_value(d) <= u32::MAX {
        Some(digits_value(d) as u32)
    } else {
        None
    }
}

/// The address the text writes as `|high.low|`: the pieces after the first
/// are its high and low parts; anything after them is not looked at.
pub open spec fn parsed_address(s: Seq<u8>) -> Option<(u32, u32)> {
    match (nth_piece(s, 1), nth_piece(s, 2)) {
        (Some(a), Some(b)) => match (parsed_u32(a), parsed_u32(b)) {
            (Some(hi), Some(lo)) => Some((hi, lo)),
            _ => None,
        },
        _ => None,
    }
}

proof fn lemma_separator_index_bounds(s: Seq<u8>)
    ensures
        0 <= separator_index(s) <= s.len(),
        separator_index(s) < s.len() ==> is_separator(s[separator_index(s)]),
        forall|j: int| 0 <= j < separator_index(s) ==> !is_separator(#[trigger] s[j]),
    decreases s.len(),
{
    if s.len() > 0 && !is_separator(s[0]) {
        lemma_separator_index_bounds(s.drop_first());
        assert forall|j: int| 0 <= j < separator_index(s) implies !is_separator(#[trigger] s[j]) by {
            if j > 0 {
                assert(s[j] == s.drop_first()[j - 1]);
            }
        }
    }
}

/// A separator at `i` with none before it is where the first one stands.
proof fn lemma_separator_index_is(s: Seq<u8>, i: int)
    requires
        0 <= i <= s.len(),
        i < s.len() ==> is_separator(s[i]),
        forall|j: int| 0 <= j < i ==> !is_separator(#[trigger] s[j]),
    ensures
        separator_index(s) == i,
    decreases s.len(),
{
    if s.len() > 0 && !is_separator(s[0]) {
        assert(i > 0);
        assert forall|j: int| 0 <= j < i - 1 implies !is_separator(#[trigger] s.drop_first()[j]) by {
            assert(s.drop_first()[j] == s[j + 1]);
        }
        lemma_separator_index_is(s.drop_first(), i - 1);
    }
}

/// Where the first separator at or after `start` stands; the length if none does.
fn find_separator(s: &[u8], start: usize) -> (r: usize)
    requires
        start <= s@.len(),
    ensures
        r == start + separator_index(s@.subrange(start as int, s@.len() as int)),
{
    let mut i = start;
    while i < s.len() && !(s[i] == 124 || s[i] == 46)
        invariant
            start <= i <= s@.len(),
            forall|j: int| start <= j < i ==> !is_separator(#[trigger] s@[j]),
        decreases s@.len() - i,
    {
        i = i + 1;
    }
    proof {
        let t = s@.subrange(start as int, s@.len() as int);
        assert forall|j: int| 0 <= j < i - start implies !is_separator(#[trigger] t[j]) by {
            assert(t[j] == s@[start + j]);
        }
        if i < s@.len() {
            assert(t[i - start] == s@[i as int]);
        }
        lemma_separator_index_is(t, i - start);
    }
    i
}

/// The number the bytes of `s` from `from` up to `to` write.
fn parse_u32_piece(s: &[u8], from: usize, to: usize) -> (r: Option<u32>)
    requires
        from <= to <= s@.len(),
    ensures
        r == parsed_u32(s@.subrange(from as int, to as int)),
{
    let ghost p = s@.subrange(from as int, to as int);
    let mut i = from;
    if i < to && s[i] == 43 {
        i = i + 1;
    }
    let ghost d = s@.subrange(i as int, to as int);
    proof {
        assert(d =~= unsigned_digits(p));
    }
    if i == to {
        return None;
    }
    let start = i;
    let mut value: u32 = 0;
    while i < to
        invariant
            from <= start <= i <= to <= s@.len(),
            p == s@.subrange(from as int, to as int),
            d == unsigned_digits(p),
            d == s@.subrange(start as int, to as int),
            forall|j: int| start <= j < i ==> is_digit(#[trigger] s@[j]),
            value == digits_value(s@.subrange(start as int, i as int)),
        decreases to - i,
    {
        let b = s[i];
        if !(48 <= b && b <= 57) {
            proof {
                assert(d[i - start] == b);
                assert(!is_digit(d[i - start]));
                assert(!all_digits(d));
            }
            return None;
        }
        let digit = (b - 48) as u32;
        proof {
            let before = s@.subrange(start as int, i as int);
            let after = s@.subrange(start as int, i + 1);
            assert(after.drop_last() =~= before);
            assert(after.last() == b);
        }
        if value > 429496729 || (value == 429496729 && digit > 5) {
            proof {
                let after = s@.subrange(start as int, i + 1);
                assert(digits_value(after) > u32::MAX);
                lemma_digits_value_grows(d, (i + 1 - start) as nat);
                assert(d.subrange(0, (i + 1 - start) as int) =~= after);
            }
            return None;
        }
        value = value * 10 + digit;
        i = i + 1;
    }
    proof {
        assert(s@.subrange(start as int, i as int) =~= d);
        assert forall|j: int| 0 <= j < d.len() implies is_digit(#[trigger] d[j]) by {
            assert(d[j] == s@[start + j]);
        }
        assert(all_digits(d));
    }
    Some(value)
}

/// A number's digits never write less than their first ones do.
proof fn lemma_digits_value_grows(d: Seq<u8>, k: nat)
    requires
        k <= d.len(),
    ensures
        digits_value(d.subrange(0, k as int)) <= digits_value(d),
    decreases d.len() - k,
{
    if k < d.len() {
        lemma_digits_value_grows(d, k + 1);
        let a = d.subrange(0, k as int);
        let b = d.subrange(0, (k + 1) as int);
        assert(b.drop_last() =~= a);
        assert(digits_value(b) == digits_value(a) * 10 + (b.last() - 48) as nat);
    } else {
        assert(d.subrange(0, k as int) =~= d);
    }
}

/// The address that the text `s` writes as `|high.low|`; a text that writes
/// no address is left out.
pub fn node_address_from_text(s: &[u8]) -> (r: NodeAddress)
    requires
        parsed_address(s@) is Some,
    ensures
        parsed_address(s@) matches Some((hi, lo)) && r == NodeAddress::from_parts(hi, lo),
{
    match parse_node_address(s) {
        Some(a) => a,
        None => NodeAddress::any(),
    }
}

/// The address the text `s` writes as `|high.low|`, if it writes one.
pub fn parse_node_address(s: &[u8]) -> (r: Option<NodeAddress>)
    ensures
        match parsed_address(s@) {
            Some((hi, lo)) => r == Some(NodeAddress::from_parts(hi, lo)) && r->0.hi() == hi && r->0.lo() == lo,
            None => r is None,
        },
{
    let n = s.len();
    let e0 = find_separator(s, 0);
    proof {
        assert(s@.subrange(0, n as int) =~= s@);
        lemma_separator_index_bounds(s@);
    }
    if e0 >= n {
        return None;
    }
    let e1 = find_separator(s, e0 + 1);
    proof {
        lemma_separator_index_bounds(s@.subrange(e0 + 1, n as int));
        let rest = s@.subrange(e0 + 1, n as int);
        assert(nth_piece(s@, 1) == nth_piece(rest, 0));
        assert(nth_piece(s@, 1) == Some(s@.subrange(e0 + 1, e1 as int))) by {
            assert(rest.subrange(0, e1 - e0 - 1) =~= s@.subrange(e0 + 1, e1 as int));
        }
    }
    if e1 >= n {
        proof {
            let rest = s@.subrange(e0 + 1, n as int);
            assert(nth_piece(s@, 2) == nth_piece(rest, 1));
            assert(nth_piece(rest, 1) is None);
        }
        return None;
    }
    let e2 = find_separator(s, e1 + 1);
    proof {
        let rest = s@.subrange(e0 + 1, n as int);
        let rest2 = s@.subrange(e1 + 1, n as int);
        lemma_separator_index_bounds(rest2);
        assert(rest.subrange(e1 - e0, rest.len() as int) =~= rest2);
        assert(nth_piece(s@, 2) == nth_piece(rest, 1));
        assert(nth_piece(rest, 1) == nth_piece(rest2, 0));
        assert(nth_piece(rest2, 0) == Some(s@.subrange(e1 + 1, e2 as int))) by {
            assert(rest2.subrange(0, e2 - e1 - 1) =~= s@.subrange(e1 + 1, e2 as int));
        }
    }
    let hi = parse_u32_piece(s, e0 + 1, e1);
    let lo = parse_u32_piece(s, e1 + 1, e2);
    match (hi, lo) {
        (Some(h), Some(l)) => Some(NodeAddress::new(h, l)),
        _ => None,
    }
}

/// The decimal digits of `n`, with no leading nought.
pub open spec fn decimal(n: nat) -> Seq<u8>
    decreases n,
{
    if n < 10 {
        seq![(n + 48) as u8]
    } else {
        decimal(n / 10).push((n % 10 + 48) as u8)
    }
}

/// The text of the address with parts `hi` and `lo`: `|hi.lo|`.
pub open spec fn address_text_spec(hi: u32, lo: u32) -> Seq<u8> {
    seq![124u8] + decimal(hi as nat) + seq![46u8] + decimal(lo as nat) + seq![124u8]
}

/// Appends the decimal digits of `n`.
fn push_decimal(v: &mut Vec<u8>, n: u32)
    ensures
        final(v)@ == old(v)@ + decimal(n as nat),
    decreases n,
{
    if n >= 10 {
        push_decimal(v, n / 10);
    }
    let ghost v1 = v@;
    v.push((n % 10 + 48) as u8);
    proof {
        if n >= 10 {
            assert(v@ =~= old(v)@ + decimal(n as nat));
        } else {
            assert(v@ =~= old(v)@ + decimal(n as nat));
        }
    }
}

/// The text of the address `a`: `|hi.lo|`.
pub fn address_text(a: &NodeAddress) -> (r: Vec<u8>)
    ensures
        r@ == address_text_spec(a.hi(), a.lo()),
{
    let (hi, lo) = a.parts();
    let mut v: Vec<u8> = Vec::new();
    v.push(124);
    push_decimal(&mut v, hi);
    v.push(46);
    push_decimal(&mut v, lo);
    v.push(124);
    proof {
        assert(v@ =~= address_text_spec(hi, lo));
    }
    v
}

/// The digits of a number are digits, at least one, and write the number.
proof fn lemma_decimal(n: nat)
    ensures
        decimal(n).len() > 0,
        all_digits(decimal(n)),
        digits_value(decimal(n)) == n,
        is_digit(decimal(n)[0]),
    decreases n,
{
    if n >= 10 {
        lemma_decimal(n / 10);
        let d = decimal(n);
        assert(d.drop_last() =~= decimal(n / 10));
        assert forall|i: int| 0 <= i < d.len() implies is_digit(#[trigger] d[i]) by {
            if i < d.len() - 1 {
                assert(d[i] == decimal(n / 10)[i]);
            }
        }
        assert(d[0] == decimal(n / 10)[0]);
        assert(d.last() == (n % 10 + 48) as u8);
        assert((n / 10) * 10 + n % 10 == n) by (nonlinear_arith);
        assert(digits_value(d) == digits_value(d.drop_last()) * 10 + (d.last() - 48) as nat);
    } else {
        assert(decimal(n).drop_last() =~= Seq::<u8>::empty());
        assert(digits_value(Seq::<u8>::empty()) == 0);
    }
}

/// The first separator of digits followed by a separator stands right after them.
proof fn lemma_separator_after_digits(d: Seq<u8>, rest: Seq<u8>)
    requires
        all_digits(d),
        rest.len() > 0,
        is_separator(rest[0]),
    ensures
        separator_index(d + rest) == d.len(),
{
    let s = d + rest;
    assert forall|j: int| 0 <= j < d.len() implies !is_separator(#[trigger] s[j]) by {
        assert(s[j] == d[j]);
        assert(is_digit(d[j]));
    }
    assert(s[d.len() as int] == rest[0]);
    lemma_separator_index_is(s, d.len() as int);
}

/// Reading the text of an address gives back that same address.
pub proof fn lemma_address_text_gives_back_the_address(a: NodeAddress)
    ensures
        parsed_address(address_text_spec(a.hi(), a.lo())) == Some((a.hi(), a.lo())),
        NodeAddress::from_parts(a.hi(), a.lo()) == a,
{
    lemma_address_text_round_trip(a.hi(), a.lo());
    crate::protocol_stack::node::lemma_address_is_its_parts(a, a, 0, 0);
}

/// Reading the text of an address gives back its parts.
pub proof fn lemma_address_text_round_trip(hi: u32, lo: u32)
    ensures
        parsed_address(address_text_spec(hi, lo)) == Some((hi, lo)),
{
    let d1 = decimal(hi as nat);
    let d2 = decimal(lo as nat);
    lemma_decimal(hi as nat);
    lemma_decimal(lo as nat);
    let t = address_text_spec(hi, lo);
    assert(t[0] == 124u8);
    lemma_separator_index_is(t, 0);
    let t1 = t.subrange(1, t.len() as int);
    let tail1 = seq![46u8] + d2 + seq![124u8];
    assert(t1 =~= d1 + tail1);
    lemma_separator_after_digits(d1, tail1);
    assert(nth_piece(t, 1) == nth_piece(t1, 0));
    assert(t1.subrange(0, d1.len() as int) =~= d1);
    let t2 = t1.subrange((d1.len() + 1) as int, t1.len() as int);
    let tail2 = seq![124u8];
    assert(t2 =~= d2 + tail2);
    lemma_separator_after_digits(d2, tail2);
    assert(nth_piece(t, 2) == nth_piece(t1, 1));
    assert(nth_piece(t1, 1) == nth_piece(t2, 0));
    assert(t2.subrange(0, d2.len() as int) =~= d2);
    assert(unsigned_digits(d1) == d1);
    assert(unsigned_digits(d2) == d2);
}

/// The text that opens the text of a second layer header, for its kind of
/// block.
pub open spec fn block_text(b: BlockType) -> Seq<u8> {
    match b {
        BlockType::AddressMapRequest => seq![91u8, 97u8, 100u8, 100u8, 114u8, 45u8, 109u8, 97u8, 112u8, 45u8, 114u8, 101u8, 113u8, 32u8],
        BlockType::AddressMapResponse => seq![91u8, 97u8, 100u8, 100u8, 114u8, 45u8, 109u8, 97u8, 112u8, 45u8, 114u8, 101u8, 115u8, 112u8, 32u8],
        BlockType::ChannelRequest => seq![91u8, 114u8, 101u8, 113u8, 32u8, 99u8, 104u8, 110u8, 108u8, 32u8],
        BlockType::Data => seq![91u8, 100u8, 97u8, 116u8, 97u8, 32u8],
        _ => seq![91u8, 63u8, 32u8],
    }
}

/// The text of a second layer header: its kind of block, then its source and
/// destination addresses, as `[data |1.1|->|2.2|`.
pub open spec fn header_text_spec(h: SecondLayerHeader) -> Seq<u8> {
    block_text(h.block_type) + address_text_spec(h.src.hi(), h.src.lo()) + seq![45u8, 62u8]
        + address_text_spec(h.dest.hi(), h.dest.lo())
}

impl SecondLayerHeader {
    /// The header as text, for reading it in a trace.
    pub fn stringify(&self) -> (r: Vec<u8>)
        ensures
            r@ == header_text_spec(*self),
    {
        let mut v: Vec<u8> = Vec::new();
        match self.block_type {
            BlockType::AddressMapRequest => {
                v.push(91);
                v.push(97);
                v.push(100);
                v.push(100);
                v.push(114);
                v.push(45);
                v.push(109);
                v.push(97);
                v.push(112);
                v.push(45);
                v.push(114);
                v.push(101);
                v.push(113);
                v.push(32);
            },
            BlockType::AddressMapResponse => {
                v.push(91);
                v.push(97);
                v.push(100);
                v.push(100);
                v.push(114);
                v.push(45);
                v.push(109);
                v.push(97);
                v.push(112);
                v.push(45);
                v.push(114);
                v.push(101);
                v.push(115);
                v.push(112);
                v.push(32);
            },
            BlockType::ChannelRequest => {
                v.push(91);
                v.push(114);
                v.push(101);
                v.push(113);
                v.push(32);
                v.push(99);
                v.push(104);
                v.push(110);
                v.push(108);
                v.push(32);
            },
            BlockType::Data => {
                v.push(91);
                v.push(100);
                v.push(97);
                v.push(116);
                v.push(97);
                v.push(32);
            },
            _ => {
                v.push(91);
                v.push(63);
                v.push(32);
            },
        }
        assert(v@ =~= block_text(self.block_type));
        let src = address_text(&self.src);
        let dest = address_text(&self.dest);
        let ghost v0 = v@;
        let mut k: usize = 0;
        while k < src.len()
            invariant
                k <= src@.len(),
                v@ == v0 + src@.subrange(0, k as int),
            decreases src@.len() - k,
        {
            v.push(src[k]);
            k = k + 1;
            assert(v@ =~= v0 + src@.subrange(0, k as int));
        }
        assert(src@.subrange(0, src@.len() as int) =~= src@);
        v.push(45);
        v.push(62);
        let ghost v1 = v@;
        let mut k: usize = 0;
        while k < dest.len()
            invariant
                k <= dest@.len(),
                v@ == v1 + dest@.subrange(0, k as int),
            decreases dest@.len() - k,
        {
            v.push(dest[k]);
            k = k + 1;
            assert(v@ =~= v1 + dest@.subrange(0, k as int));
        }
        assert(dest@.subrange(0, dest@.len() as int) =~= dest@);
        assert(v@ =~= header_text_spec(*self));
        v
    }
}

} // verus!
