//! Socket addresses and their text form.
//!
//! An address is written the way socket addresses usually are: `127.0.0.1:44301`
//! for IPv4 and `[::1]:44301` for IPv6, the latter with the longest run of zero
//! groups left out, IPv4-mapped addresses with a dotted tail, and the scope, if
//! there is one, behind a percent sign.

use vstd::prelude::*;
use crate::text::{self, chars_of, parse_number, push_number};

verus! {

/// An address that a socket can be bound to.
#[derive(Debug, Clone, Copy, PartialEq, Eq)]
pub enum SocketAddr {
    V4 { octets: [u8; 4], port: u16 },
    V6 { segments: [u16; 8], port: u16, flowinfo: u32, scope_id: u32 },
}

/// A socket address with its octets or segments as a sequence.
#[verifier::ext_equal]
pub enum AddrView {
    V4 { octets: Seq<u8>, port: u16 },
    V6 { segments: Seq<u16>, port: u16, flowinfo: u32, scope_id: u32 },
}

impl View for SocketAddr {
    type V = AddrView;

    open spec fn view(&self) -> AddrView {
        match *self {
            SocketAddr::V4 { octets, port } => AddrView::V4 { octets: octets@, port },
            SocketAddr::V6 { segments, port, flowinfo, scope_id } => AddrView::V6 {
                segments: segments@,
                port,
                flowinfo,
                scope_id,
            },
        }
    }
}

impl AddrView {
    /// The port of the address.
    pub open spec fn port(self) -> u16 {
        match self {
            AddrView::V4 { octets, port } => port,
            AddrView::V6 { segments, port, flowinfo, scope_id } => port,
        }
    }
}

impl From<([u8; 4], u16)> for SocketAddr {
    fn from(pair: ([u8; 4], u16)) -> (addr: SocketAddr) {
        SocketAddr::V4 { octets: pair.0, port: pair.1 }
    }
}

impl vstd::std_specs::convert::FromSpecImpl<([u8; 4], u16)> for SocketAddr {
    open spec fn obeys_from_spec() -> bool {
        true
    }

    open spec fn from_spec(pair: ([u8; 4], u16)) -> SocketAddr {
        SocketAddr::V4 { octets: pair.0, port: pair.1 }
    }
}

// ---------------------------------------------------------------------------
// Writing
// ---------------------------------------------------------------------------

/// The numbers from index `from` on, written in the given radix, with `sep` in
/// front of each of them but the one at index zero.
pub open spec fn list_text(v: Seq<nat>, from: nat, radix: nat, sep: char) -> Seq<char>
    decreases v.len() - from,
{
    if from >= v.len() {
        Seq::empty()
    } else {
        (if from == 0 {
            Seq::empty()
        } else {
            seq![sep]
        }) + text::number_text(v[from as int], radix) + list_text(v, from + 1, radix, sep)
    }
}

/// Octets as numbers.
pub open spec fn octet_numbers(octets: Seq<u8>) -> Seq<nat> {
    octets.map_values(|b: u8| b as nat)
}

/// Groups as numbers.
pub open spec fn group_numbers(groups: Seq<u16>) -> Seq<nat> {
    groups.map_values(|g: u16| g as nat)
}

/// Octets in decimal, separated by dots.
pub open spec fn dotted(octets: Seq<u8>) -> Seq<char> {
    list_text(octet_numbers(octets), 0, 10, '.')
}

/// Groups of sixteen bits in hexadecimal, separated by colons.
pub open spec fn coloned(groups: Seq<u16>) -> Seq<char> {
    list_text(group_numbers(groups), 0, 16, ':')
}

/// The upper and the lower half of a group.
pub open spec fn halves(g: u16) -> Seq<u8> {
    seq![(g / 256) as u8, (g % 256) as u8]
}

/// Whether the address is an IPv4 address in IPv6 clothing.
pub open spec fn is_v4_mapped(segments: Seq<u16>) -> bool {
    &&& forall|i: int| 0 <= i < 5 ==> #[trigger] segments[i] == 0
    &&& segments[5] == 0xffff
}

/// How many zero groups follow each other from index `i` on.
pub open spec fn zero_run(segments: Seq<u16>, i: int) -> nat
    decreases segments.len() - i,
{
    if 0 <= i < segments.len() && segments[i] == 0 {
        1 + zero_run(segments, i + 1)
    } else {
        0
    }
}

/// The first of the indices below `n` from which the most zero groups follow.
pub open spec fn longest_run(segments: Seq<u16>, n: nat) -> nat
    decreases n,
{
    if n <= 1 {
        0
    } else {
        let best = longest_run(segments, (n - 1) as nat);
        if zero_run(segments, n - 1) > zero_run(segments, best as int) {
            (n - 1) as nat
        } else {
            best
        }
    }
}

/// An IPv6 address as text.
pub open spec fn v6_text(segments: Seq<u16>) -> Seq<char> {
    let start = longest_run(segments, 8) as int;
    let len = zero_run(segments, start) as int;
    if is_v4_mapped(segments) {
        "::ffff:"@ + dotted(halves(segments[6]) + halves(segments[7]))
    } else if len > 1 {
        coloned(segments.take(start)) + "::"@ + coloned(segments.skip(start + len))
    } else {
        coloned(segments)
    }
}

/// The scope of an IPv6 address as text: nothing for scope zero.
pub open spec fn scope_text(scope_id: u32) -> Seq<char> {
    if scope_id == 0 {
        Seq::empty()
    } else {
        "%"@ + text::number_text(scope_id as nat, 10)
    }
}

/// The text form of an address.
pub open spec fn addr_text(addr: AddrView) -> Seq<char> {
    match addr {
        AddrView::V4 { octets, port } => dotted(octets) + ":"@ + text::number_text(port as nat, 10),
        AddrView::V6 { segments, port, flowinfo, scope_id } => "["@ + v6_text(segments)
            + scope_text(scope_id) + "]:"@ + text::number_text(port as nat, 10),
    }
}

/// Writes the numbers from `from` up to `to` of `v`, with `sep` between them.
fn push_list(out: &mut String, v: &Vec<u16>, from: usize, to: usize, radix: u32, sep: char)
    requires
        from <= to <= v@.len(),
        2 <= radix <= 16,
    ensures
        final(out)@ == old(out)@ + list_text(
            group_numbers(v@.subrange(from as int, to as int)),
            0,
            radix as nat,
            sep,
        ),
{
    let ghost nums = group_numbers(v@.subrange(from as int, to as int));
    let mut i: usize = from;
    assert(out@ + list_text(nums, 0, radix as nat, sep) =~= old(out)@ + list_text(
        nums,
        0,
        radix as nat,
        sep,
    ));
    while i < to
        invariant
            from <= i <= to <= v@.len(),
            2 <= radix <= 16,
            nums == group_numbers(v@.subrange(from as int, to as int)),
            out@ + list_text(nums, (i - from) as nat, radix as nat, sep) == old(out)@ + list_text(
                nums,
                0,
                radix as nat,
                sep,
            ),
        decreases to - i,
    {
        let ghost before = out@;
        let ghost k = (i - from) as nat;
        if i > from {
            out.push(sep);
        }
        push_number(out, v[i] as u32, radix);
        assert(nums[k as int] == v@[i as int] as nat);
        assert(out@ + list_text(nums, k + 1, radix as nat, sep) =~= before + list_text(
            nums,
            k,
            radix as nat,
            sep,
        ));
        i = i + 1;
    }
    assert(out@ =~= out@ + list_text(nums, (to - from) as nat, radix as nat, sep));
}

/// Writes four octets, given as numbers, separated by dots.
fn push_dotted(out: &mut String, a: u8, b: u8, c: u8, d: u8)
    ensures
        final(out)@ == old(out)@ + dotted(seq![a, b, c, d]),
{
    let v: Vec<u16> = vec![a as u16, b as u16, c as u16, d as u16];
    assert(group_numbers(v@.subrange(0, 4)) =~= octet_numbers(seq![a, b, c, d]));
    push_list(out, &v, 0, 4, 10, '.');
}

/// How many zero groups follow each other from index `i` on.
fn count_zero_run(segments: &Vec<u16>, i: usize) -> (run: usize)
    requires
        i <= segments@.len(),
    ensures
        run == zero_run(segments@, i as int),
        i + run <= segments@.len(),
    decreases segments@.len() - i,
{
    if i < segments.len() && segments[i] == 0 {
        1 + count_zero_run(segments, i + 1)
    } else {
        0
    }
}

/// The groups of a zero run are zero, and lie within the address.
proof fn lemma_zero_run(segments: Seq<u16>, i: int)
    requires
        0 <= i <= segments.len(),
    ensures
        i + zero_run(segments, i) <= segments.len(),
        forall|j: int| i <= j < i + zero_run(segments, i) ==> #[trigger] segments[j] == 0,
    decreases segments.len() - i,
{
    if i < segments.len() && segments[i] == 0 {
        lemma_zero_run(segments, i + 1);
    }
}

/// The longest run starts within the address.
proof fn lemma_longest_run(segments: Seq<u16>, n: nat)
    ensures
        n > 0 ==> longest_run(segments, n) < n,
        n == 0 ==> longest_run(segments, n) == 0,
    decreases n,
{
    if n > 1 {
        lemma_longest_run(segments, (n - 1) as nat);
    }
}

/// Writes an IPv6 address.
fn push_v6(out: &mut String, segments: &Vec<u16>)
    requires
        segments@.len() == 8,
    ensures
        final(out)@ == old(out)@ + v6_text(segments@),
{
    let ghost segs = segments@;
    proof {
        lemma_longest_run(segs, 8);
        lemma_zero_run(segs, longest_run(segs, 8) as int);
        reveal_strlit("::ffff:");
        reveal_strlit("::");
    }
    if segments[0] == 0 && segments[1] == 0 && segments[2] == 0 && segments[3] == 0 && segments[4]
        == 0 && segments[5] == 0xffff {
        assert(is_v4_mapped(segs));
        let x: u16 = segments[6];
        let y: u16 = segments[7];
        out.append("::ffff:");
        push_dotted(out, (x / 256) as u8, (x % 256) as u8, (y / 256) as u8, (y % 256) as u8);
        assert(halves(x) + halves(y) =~= seq![
            (x / 256) as u8,
            (x % 256) as u8,
            (y / 256) as u8,
            (y % 256) as u8,
        ]);
        assert(out@ =~= old(out)@ + v6_text(segs));
        return;
    }
    assert(!is_v4_mapped(segs)) by {
        if is_v4_mapped(segs) {
            assert(segs[0] == 0 && segs[1] == 0 && segs[2] == 0 && segs[3] == 0 && segs[4] == 0);
        }
    }
    let mut start: usize = 0;
    let mut len: usize = count_zero_run(segments, 0);
    let mut i: usize = 1;
    while i < 8
        invariant
            segments@ == segs,
            segs.len() == 8,
            1 <= i <= 8,
            start < i,
            start == longest_run(segs, i as nat),
            len == zero_run(segs, start as int),
        decreases 8 - i,
    {
        let run: usize = count_zero_run(segments, i);
        if run > len {
            start = i;
            len = run;
        }
        i = i + 1;
    }
    if len > 1 {
        push_list(out, segments, 0, start, 16, ':');
        out.append("::");
        push_list(out, segments, start + len, 8, 16, ':');
        assert(segs.subrange(0, start as int) =~= segs.take(start as int));
        assert(segs.subrange(start + len, 8) =~= segs.skip(start + len));
        assert(out@ =~= old(out)@ + v6_text(segs));
    } else {
        push_list(out, segments, 0, 8, 16, ':');
        assert(segs.subrange(0, 8) =~= segs);
    }
}

impl SocketAddr {
    /// The port of the address.
    pub fn port(&self) -> (port: u16)
        ensures
            port == self@.port(),
    {
        match *self {
            SocketAddr::V4 { octets: _, port } => port,
            SocketAddr::V6 { segments: _, port, flowinfo: _, scope_id: _ } => port,
        }
    }

    /// The text form of the address.
    pub fn to_string(&self) -> (text: String)
        ensures
            text@ == addr_text(self@),
    {
        proof {
            reveal_strlit(":");
            reveal_strlit("[");
            reveal_strlit("]:");
            reveal_strlit("%");
        }
        let mut out = String::new();
        match *self {
            SocketAddr::V4 { octets, port } => {
                push_dotted(&mut out, octets[0], octets[1], octets[2], octets[3]);
                assert(octets@ =~= seq![octets[0], octets[1], octets[2], octets[3]]);
                out.append(":");
                push_number(&mut out, port as u32, 10);
                assert(out@ =~= addr_text(self@));
            },
            SocketAddr::V6 { segments, port, flowinfo: _, scope_id } => {
                let groups: Vec<u16> = vec![
                    segments[0],
                    segments[1],
                    segments[2],
                    segments[3],
                    segments[4],
                    segments[5],
                    segments[6],
                    segments[7],
                ];
                assert(groups@ =~= segments@);
                out.append("[");
                push_v6(&mut out, &groups);
                if scope_id != 0 {
                    out.append("%");
                    push_number(&mut out, scope_id, 10);
                }
                out.append("]:");
                push_number(&mut out, port as u32, 10);
                assert(out@ =~= addr_text(self@));
            },
        }
        out
    }
}

// ---------------------------------------------------------------------------
// Reading
// ---------------------------------------------------------------------------

/// What follows the character `c` at the beginning of `s`.
pub open spec fn read_char(s: Seq<char>, c: char) -> Option<Seq<char>> {
    if s.len() > 0 && s[0] == c {
        Some(s.skip(1))
    } else {
        None
    }
}

/// What follows the separator at the beginning of `s`; the item with index zero
/// has no separator in front.
pub open spec fn read_separator(s: Seq<char>, sep: char, index: nat) -> Option<Seq<char>> {
    if index == 0 {
        Some(s)
    } else {
        read_char(s, sep)
    }
}

/// The octets from index `index` to three at the beginning of `s`, and what
/// follows them. An octet has one to three digits and no leading zero.
pub open spec fn read_octets(s: Seq<char>, index: nat) -> Option<(Seq<u8>, Seq<char>)>
    decreases 4 - index,
{
    if index >= 4 {
        Some((Seq::empty(), s))
    } else {
        match read_separator(s, '.', index) {
            None => None,
            Some(t) => match text::read_number(t, 10, Some(3), false, 255) {
                None => None,
                Some((value, u)) => match read_octets(u, index + 1) {
                    None => None,
                    Some((octets, rest)) => Some((seq![value as u8] + octets, rest)),
                },
            },
        }
    }
}

/// Two octets as one group.
pub open spec fn joined(hi: u8, lo: u8) -> u16 {
    (hi * 256 + lo) as u16
}

/// The groups of an IPv6 address at the beginning of `s`, with indices from
/// `index` up to, but not including, `limit`: as many as stand there. The flag
/// tells whether the last two of them were written as a dotted IPv4 address.
pub open spec fn read_groups(s: Seq<char>, index: nat, limit: nat) -> (
    Seq<u16>,
    bool,
    Seq<char>,
)
    decreases limit - index,
{
    if index >= limit {
        (Seq::empty(), false, s)
    } else {
        match read_separator(s, ':', index) {
            None => (Seq::empty(), false, s),
            Some(t) => {
                let v4 = if index + 1 < limit {
                    read_octets(t, 0)
                } else {
                    None
                };
                match v4 {
                    Some((o, rest)) => (seq![joined(o[0], o[1]), joined(o[2], o[3])], true, rest),
                    None => match text::read_number(t, 16, Some(4), true, 0xffff) {
                        None => (Seq::empty(), false, s),
                        Some((value, u)) => {
                            let (groups, dotted_tail, rest) = read_groups(u, index + 1, limit);
                            (seq![value as u16] + groups, dotted_tail, rest)
                        },
                    },
                }
            },
        }
    }
}

/// The IPv6 address at the beginning of `s`, and what follows it: eight groups,
/// or fewer with one double colon for one or more groups that are zero.
pub open spec fn read_v6(s: Seq<char>) -> Option<(Seq<u16>, Seq<char>)> {
    let (head, dotted_tail, after_head) = read_groups(s, 0, 8);
    if head.len() == 8 {
        Some((head, after_head))
    } else if dotted_tail {
        None
    } else {
        match read_char(after_head, ':') {
            None => None,
            Some(t) => match read_char(t, ':') {
                None => None,
                Some(u) => {
                    let (tail, _, rest) = read_groups(u, 0, (7 - head.len()) as nat);
                    let zeros = Seq::new((8 - head.len() - tail.len()) as nat, |i: int| 0u16);
                    Some((head + zeros + tail, rest))
                },
            },
        }
    }
}

/// The port at the beginning of `s`, behind its colon, and what follows it.
pub open spec fn read_port(s: Seq<char>) -> Option<(nat, Seq<char>)> {
    match read_char(s, ':') {
        None => None,
        Some(t) => text::read_number(t, 10, None, true, 0xffff),
    }
}

/// The scope at the beginning of `s`, behind its percent sign, and what follows
/// it; scope zero, and nothing consumed, where none is written there.
pub open spec fn read_scope(s: Seq<char>) -> (nat, Seq<char>) {
    match read_char(s, '%') {
        None => (0, s),
        Some(t) => match text::read_number(t, 10, None, true, 0xffff_ffff) {
            None => (0, s),
            Some((scope, rest)) => (scope, rest),
        },
    }
}

/// The IPv4 socket address at the beginning of `s`, and what follows it.
pub open spec fn read_addr_v4(s: Seq<char>) -> Option<(AddrView, Seq<char>)> {
    match read_octets(s, 0) {
        None => None,
        Some((octets, t)) => match read_port(t) {
            None => None,
            Some((port, rest)) => Some((AddrView::V4 { octets, port: port as u16 }, rest)),
        },
    }
}

/// The IPv6 socket address at the beginning of `s`, and what follows it.
pub open spec fn read_addr_v6(s: Seq<char>) -> Option<(AddrView, Seq<char>)> {
    match read_char(s, '[') {
        None => None,
        Some(t) => match read_v6(t) {
            None => None,
            Some((segments, u)) => {
                let (scope, v) = read_scope(u);
                match read_char(v, ']') {
                    None => None,
                    Some(w) => match read_port(w) {
                        None => None,
                        Some((port, rest)) => Some(
                            (
                                AddrView::V6 {
                                    segments,
                                    port: port as u16,
                                    flowinfo: 0,
                                    scope_id: scope as u32,
                                },
                                rest,
                            ),
                        ),
                    },
                }
            },
        },
    }
}

/// The address that the whole of `s` denotes, if it denotes one.
pub open spec fn parsed_addr(s: Seq<char>) -> Option<AddrView> {
    match read_addr_v4(s) {
        Some((addr, rest)) => if rest.len() == 0 {
            Some(addr)
        } else {
            None
        },
        None => match read_addr_v6(s) {
            Some((addr, rest)) => if rest.len() == 0 {
                Some(addr)
            } else {
                None
            },
            None => None,
        },
    }
}

/// Reads `c` at position `pos`.
fn parse_char(chars: &Vec<char>, pos: usize, c: char) -> (res: Option<usize>)
    requires
        pos <= chars@.len(),
    ensures
        match res {
            Some(next) => pos < next <= chars@.len() && read_char(chars@.skip(pos as int), c) == Some(
                chars@.skip(next as int),
            ),
            None => read_char(chars@.skip(pos as int), c) is None,
        },
{
    if pos < chars.len() && chars[pos] == c {
        assert(chars@.skip(pos as int)[0] == c);
        assert(chars@.skip(pos as int).skip(1) =~= chars@.skip(pos + 1));
        Some(pos + 1)
    } else {
        None
    }
}

/// Reads the separator in front of the item with the given index.
fn parse_separator(chars: &Vec<char>, pos: usize, sep: char, index: usize) -> (res: Option<usize>)
    requires
        pos <= chars@.len(),
    ensures
        match res {
            Some(next) => pos <= next <= chars@.len() && read_separator(
                chars@.skip(pos as int),
                sep,
                index as nat,
            ) == Some(chars@.skip(next as int)),
            None => read_separator(chars@.skip(pos as int), sep, index as nat) is None,
        },
{
    if index == 0 {
        Some(pos)
    } else {
        parse_char(chars, pos, sep)
    }
}

/// Reads a dotted IPv4 address.
fn parse_octets(chars: &Vec<char>, start: usize) -> (res: Option<([u8; 4], usize)>)
    requires
        start <= chars@.len(),
    ensures
        match res {
            Some((octets, next)) => start <= next <= chars@.len() && read_octets(
                chars@.skip(start as int),
                0,
            ) == Some((octets@, chars@.skip(next as int))),
            None => read_octets(chars@.skip(start as int), 0) is None,
        },
{
    let ghost whole = read_octets(chars@.skip(start as int), 0);
    let mut octets: Vec<u8> = Vec::new();
    let mut pos: usize = start;
    let mut index: usize = 0;
    assert(whole matches Some((o, _)) ==> octets@ + o =~= o);
    while index < 4
        invariant
            start <= pos <= chars@.len(),
            index <= 4,
            octets@.len() == index,
            whole == read_octets(chars@.skip(start as int), 0),
            whole == match read_octets(chars@.skip(pos as int), index as nat) {
                Some((o, rest)) => Some((octets@ + o, rest)),
                None => None,
            },
        decreases 4 - index,
    {
        match parse_separator(chars, pos, '.', index) {
            None => {
                return None;
            },
            Some(p) => match parse_number(chars, p, 10, Some(3), false, 255) {
                None => {
                    return None;
                },
                Some((value, next)) => {
                    let ghost before = octets@;
                    octets.push(value as u8);
                    assert(forall|o: Seq<u8>|
                        #![trigger octets@ + o]
                        octets@ + o =~= before + (seq![value as u8] + o));
                    pos = next;
                    index = index + 1;
                },
            },
        }
    }
    let array: [u8; 4] = [octets[0], octets[1], octets[2], octets[3]];
    assert(array@ =~= octets@ + Seq::<u8>::empty());
    Some((array, pos))
}

/// Reads groups of an IPv6 address.
fn parse_groups(chars: &Vec<char>, start: usize, limit: usize) -> (res: (Vec<u16>, bool, usize))
    requires
        start <= chars@.len(),
        limit <= 8,
    ensures
        start <= res.2 <= chars@.len(),
        res.0@.len() <= limit,
        read_groups(chars@.skip(start as int), 0, limit as nat) == (
            res.0@,
            res.1,
            chars@.skip(res.2 as int),
        ),
{
    let ghost whole = read_groups(chars@.skip(start as int), 0, limit as nat);
    let mut groups: Vec<u16> = Vec::new();
    let mut pos: usize = start;
    let mut index: usize = 0;
    assert(groups@ + whole.0 =~= whole.0);
    while index < limit
        invariant
            start <= pos <= chars@.len(),
            index <= limit <= 8,
            groups@.len() == index,
            whole == read_groups(chars@.skip(start as int), 0, limit as nat),
            ({
                let (g, dotted_tail, rest) = read_groups(
                    chars@.skip(pos as int),
                    index as nat,
                    limit as nat,
                );
                whole == (groups@ + g, dotted_tail, rest)
            }),
        decreases limit - index,
    {
        let ghost before = groups@;
        assert(before + Seq::<u16>::empty() =~= before);
        match parse_separator(chars, pos, ':', index) {
            None => {
                return (groups, false, pos);
            },
            Some(p) => {
                let v4 = if index + 1 < limit {
                    parse_octets(chars, p)
                } else {
                    None
                };
                match v4 {
                    Some((o, next)) => {
                        let hi: u16 = o[0] as u16 * 256 + o[1] as u16;
                        let lo: u16 = o[2] as u16 * 256 + o[3] as u16;
                        groups.push(hi);
                        groups.push(lo);
                        assert(groups@ =~= before + seq![
                            joined(o@[0], o@[1]),
                            joined(o@[2], o@[3]),
                        ]);
                        return (groups, true, next);
                    },
                    None => match parse_number(chars, p, 16, Some(4), true, 0xffff) {
                        None => {
                            return (groups, false, pos);
                        },
                        Some((value, next)) => {
                            groups.push(value as u16);
                            assert(forall|g: Seq<u16>|
                                #![trigger groups@ + g]
                                groups@ + g =~= before + (seq![value as u16] + g));
                            pos = next;
                            index = index + 1;
                        },
                    },
                }
            },
        }
    }
    assert(groups@ + Seq::<u16>::empty() =~= groups@);
    (groups, false, pos)
}

/// Reads an IPv6 address.
fn parse_v6(chars: &Vec<char>, start: usize) -> (res: Option<([u16; 8], usize)>)
    requires
        start <= chars@.len(),
    ensures
        match res {
            Some((segments, next)) => start <= next <= chars@.len() && read_v6(
                chars@.skip(start as int),
            ) == Some((segments@, chars@.skip(next as int))),
            None => read_v6(chars@.skip(start as int)) is None,
        },
{
    let (mut groups, dotted_tail, after_head) = parse_groups(chars, start, 8);
    let ghost head = groups@;
    let count: usize = groups.len();
    let mut pos: usize = after_head;
    if count < 8 {
        if dotted_tail {
            return None;
        }
        match parse_char(chars, pos, ':') {
            None => {
                return None;
            },
            Some(p) => match parse_char(chars, p, ':') {
                None => {
                    return None;
                },
                Some(q) => {
                    pos = q;
                },
            },
        }
        let (mut tail, _, rest) = parse_groups(chars, pos, 7 - count);
        pos = rest;
        let fill: usize = 8 - count - tail.len();
        for k in 0..fill
            invariant
                groups@ == head + Seq::new(k as nat, |i: int| 0u16),
        {
            groups.push(0);
            assert(groups@ =~= head + Seq::new((k + 1) as nat, |i: int| 0u16));
        }
        groups.append(&mut tail);
    }
    let array: [u16; 8] = [
        groups[0],
        groups[1],
        groups[2],
        groups[3],
        groups[4],
        groups[5],
        groups[6],
        groups[7],
    ];
    assert(array@ =~= groups@);
    Some((array, pos))
}

/// Reads a port behind its colon.
fn parse_port(chars: &Vec<char>, start: usize) -> (res: Option<(u16, usize)>)
    requires
        start <= chars@.len(),
    ensures
        match res {
            Some((port, next)) => start <= next <= chars@.len() && read_port(
                chars@.skip(start as int),
            ) == Some((port as nat, chars@.skip(next as int))),
            None => read_port(chars@.skip(start as int)) is None,
        },
{
    match parse_char(chars, start, ':') {
        None => None,
        Some(p) => match parse_number(chars, p, 10, None, true, 0xffff) {
            None => None,
            Some((port, next)) => Some((port as u16, next)),
        },
    }
}

/// Reads a scope behind its percent sign, if there is one.
fn parse_scope(chars: &Vec<char>, start: usize) -> (res: (u32, usize))
    requires
        start <= chars@.len(),
    ensures
        start <= res.1 <= chars@.len(),
        read_scope(chars@.skip(start as int)) == (res.0 as nat, chars@.skip(res.1 as int)),
{
    match parse_char(chars, start, '%') {
        None => (0, start),
        Some(p) => match parse_number(chars, p, 10, None, true, 0xffff_ffff) {
            None => (0, start),
            Some((scope, next)) => (scope, next),
        },
    }
}

/// Reads an IPv4 socket address from the beginning of the text.
fn parse_addr_v4(chars: &Vec<char>) -> (res: Option<(SocketAddr, usize)>)
    ensures
        match res {
            Some((addr, next)) => next <= chars@.len() && read_addr_v4(chars@) == Some(
                (addr@, chars@.skip(next as int)),
            ),
            None => read_addr_v4(chars@) is None,
        },
{
    assert(chars@.skip(0) =~= chars@);
    match parse_octets(chars, 0) {
        None => None,
        Some((octets, p)) => match parse_port(chars, p) {
            None => None,
            Some((port, next)) => Some((SocketAddr::V4 { octets, port }, next)),
        },
    }
}

/// Reads an IPv6 socket address from the beginning of the text.
fn parse_addr_v6(chars: &Vec<char>) -> (res: Option<(SocketAddr, usize)>)
    ensures
        match res {
            Some((addr, next)) => next <= chars@.len() && read_addr_v6(chars@) == Some(
                (addr@, chars@.skip(next as int)),
            ),
            None => read_addr_v6(chars@) is None,
        },
{
    assert(chars@.skip(0) =~= chars@);
    match parse_char(chars, 0, '[') {
        None => None,
        Some(p) => match parse_v6(chars, p) {
            None => None,
            Some((segments, q)) => {
                let (scope_id, r) = parse_scope(chars, q);
                match parse_char(chars, r, ']') {
                    None => None,
                    Some(t) => match parse_port(chars, t) {
                        None => None,
                        Some((port, next)) => Some(
                            (SocketAddr::V6 { segments, port, flowinfo: 0, scope_id }, next),
                        ),
                    },
                }
            },
        },
    }
}

impl SocketAddr {
    /// The address that the text denotes. The whole text must belong to it.
    pub fn parse(text: &str) -> (res: Option<SocketAddr>)
        ensures
            match res {
                Some(addr) => parsed_addr(text@) == Some(addr@),
                None => parsed_addr(text@) is None,
            },
    {
        let chars = chars_of(text);
        match parse_addr_v4(&chars) {
            Some((addr, next)) => if next == chars.len() {
                Some(addr)
            } else {
                None
            },
            None => match parse_addr_v6(&chars) {
                Some((addr, next)) => if next == chars.len() {
                    Some(addr)
                } else {
                    None
                },
                None => None,
            },
        }
    }
}

// ---------------------------------------------------------------------------
// Reading back what was written
// ---------------------------------------------------------------------------

/// Dotted octets are read back, whatever follows them that is no decimal digit.
proof fn lemma_read_octets(octets: Seq<u8>, index: nat, rest: Seq<char>)
    requires
        octets.len() == 4,
        index <= 4,
        rest.len() == 0 || !text::is_digit(rest[0], 10),
    ensures
        read_octets(list_text(octet_numbers(octets), index, 10, '.') + rest, index) == Some(
            (octets.skip(index as int), rest),
        ),
    decreases 4 - index,
{
    let nums = octet_numbers(octets);
    let s = list_text(nums, index, 10, '.') + rest;
    if index == 4 {
        assert(s =~= rest);
        assert(octets.skip(4) =~= Seq::<u8>::empty());
    } else {
        let more = list_text(nums, index + 1, 10, '.') + rest;
        let n = octets[index as int] as nat;
        assert(nums[index as int] == n);
        let body = text::number_text(n, 10) + more;
        if index == 0 {
            assert(s =~= body);
        } else {
            assert(s.skip(1) =~= body);
            assert(s[0] == '.');
        }
        assert(more.len() == 0 || !text::is_digit(more[0], 10)) by {
            if index + 1 < 4 {
                assert(more[0] == '.');
            } else {
                assert(more =~= rest);
            }
        }
        assert(text::pow_nat(10, 3) == 1000) by {
            reveal_with_fuel(text::pow_nat, 4);
        }
        text::lemma_read_number_text(n, 10, Some(3), false, 255, more);
        lemma_read_octets(octets, index + 1, rest);
        assert(seq![n as u8] + octets.skip((index + 1) as int) =~= octets.skip(index as int));
    }
}

/// No dotted address is read where hexadecimal digits are followed by anything
/// but a dot.
proof fn lemma_no_octets(s: Seq<char>, count: int)
    requires
        0 <= count <= s.len(),
        forall|i: int| 0 <= i < count ==> text::is_digit(#[trigger] s[i], 16),
        count < s.len() ==> !text::is_digit(s[count], 16) && s[count] != '.',
    ensures
        read_octets(s, 0) is None,
{
    text::lemma_digit_run_bounds(s, 10);
    let run = text::digit_run(s, 10) as int;
    if run > count {
        assert(text::is_digit(s[count], 10));
    }
    match text::read_number(s, 10, Some(3), false, 255) {
        None => {},
        Some((value, rest)) => {
            assert(rest == s.skip(run));
            assert(read_char(rest, '.') is None) by {
                if run < s.len() {
                    assert(rest[0] == s[run]);
                    if run < count {
                        assert(text::is_digit(s[run], 16));
                    }
                }
            }
            assert(read_octets(rest, 1) is None);
        },
    }
}

/// What can follow the groups of an address, or of the part of one before the
/// double colon.
spec fn ends_groups(rest: Seq<char>) -> bool {
    rest.len() > 0 ==> {
        &&& !text::is_digit(rest[0], 16)
        &&& rest[0] != '.'
        &&& rest[0] == ':' ==> rest.len() > 1 && rest[1] == ':'
    }
}

/// Written groups are read back.
proof fn lemma_read_groups(groups: Seq<u16>, index: nat, limit: nat, rest: Seq<char>)
    requires
        index <= groups.len() <= limit,
        ends_groups(rest),
    ensures
        read_groups(list_text(group_numbers(groups), index, 16, ':') + rest, index, limit) == (
            groups.skip(index as int),
            false,
            rest,
        ),
    decreases groups.len() - index,
{
    let nums = group_numbers(groups);
    let s = list_text(nums, index, 16, ':') + rest;
    if index == groups.len() {
        assert(s =~= rest);
        assert(groups.skip(index as int) =~= Seq::<u16>::empty());
        if index < limit {
            match read_separator(rest, ':', index) {
                None => {},
                Some(t) => {
                    assert(t.len() == 0 || !text::is_digit(t[0], 16) && t[0] != '.');
                    lemma_no_octets(t, 0);
                },
            }
        }
    } else {
        let more = list_text(nums, index + 1, 16, ':') + rest;
        let n = groups[index as int] as nat;
        let digits = text::number_text(n, 16);
        assert(nums[index as int] == n);
        let body = digits + more;
        if index == 0 {
            assert(s =~= body);
        } else {
            assert(s.skip(1) =~= body);
            assert(s[0] == ':');
        }
        assert(more.len() == 0 || !text::is_digit(more[0], 16) && more[0] != '.') by {
            if index + 1 < groups.len() {
                assert(more[0] == ':');
            } else {
                assert(more =~= rest);
            }
        }
        text::lemma_number_text(n, 16);
        assert forall|i: int| 0 <= i < digits.len() implies text::is_digit(
            #[trigger] body[i],
            16,
        ) by {
            assert(body[i] == digits[i]);
        }
        lemma_no_octets(body, digits.len() as int);
        assert(text::pow_nat(16, 4) == 0x10000) by {
            reveal_with_fuel(text::pow_nat, 5);
        }
        text::lemma_read_number_text(n, 16, Some(4), true, 0xffff, more);
        lemma_read_groups(groups, index + 1, limit, rest);
        assert(seq![n as u16] + groups.skip((index + 1) as int) =~= groups.skip(index as int));
    }
}

/// A written IPv4-mapped address is read back.
proof fn lemma_read_v6_mapped(segments: Seq<u16>, rest: Seq<char>)
    requires
        segments.len() == 8,
        is_v4_mapped(segments),
        ends_groups(rest),
    ensures
        read_v6(v6_text(segments) + rest) == Some((segments, rest)),
{
    let x = segments[6];
    let y = segments[7];
    let octets = halves(x) + halves(y);
    let dots = dotted(octets);
    let behind = seq![':'] + (dots + rest);
    let ffff = text::number_text(0xffff, 16);
    let tail = ffff + behind;
    let after = seq![':', ':'] + tail;
    assert(ffff =~= seq!['f', 'f', 'f', 'f']) by {
        reveal_with_fuel(text::number_text, 4);
    }
    assert(v6_text(segments) + rest =~= after) by {
        reveal_strlit("::ffff:");
    }
    assert(read_groups(after, 0, 8) == (Seq::<u16>::empty(), false, after)) by {
        lemma_read_groups(Seq::empty(), 0, 8, after);
        assert(list_text(group_numbers(Seq::empty()), 0, 16, ':') + after =~= after);
        assert(Seq::<u16>::empty().skip(0) =~= Seq::<u16>::empty());
    }
    assert(read_groups(behind, 1, 7) == (seq![x, y], true, rest)) by {
        assert(behind.skip(1) =~= dots + rest);
        lemma_read_octets(octets, 0, rest);
        assert(octets.skip(0) =~= octets);
        assert(joined(octets[0], octets[1]) == x);
        assert(joined(octets[2], octets[3]) == y);
    }
    assert(read_groups(tail, 0, 7) == (seq![0xffffu16] + seq![x, y], true, rest)) by {
        assert(forall|i: int| 0 <= i < 4 ==> text::is_digit(#[trigger] tail[i], 16)) by {
            assert(forall|i: int| 0 <= i < 4 ==> #[trigger] tail[i] == 'f');
        }
        assert(tail[4] == ':');
        lemma_no_octets(tail, 4);
        assert(text::pow_nat(16, 4) == 0x10000) by {
            reveal_with_fuel(text::pow_nat, 5);
        }
        text::lemma_read_number_text(0xffff, 16, Some(4), true, 0xffff, behind);
    }
    assert(after[0] == ':');
    assert(after.skip(1)[0] == ':');
    assert(after.skip(1).skip(1) =~= tail);
    let zeros = Seq::new(5, |i: int| 0u16);
    assert(Seq::<u16>::empty() + zeros + (seq![0xffffu16] + seq![x, y]) =~= segments);
}

/// An address that was written with a double colon is read back.
proof fn lemma_read_v6_compressed(segments: Seq<u16>, start: int, len: int, rest: Seq<char>)
    requires
        segments.len() == 8,
        0 <= start,
        len > 1,
        start + len <= 8,
        forall|j: int| start <= j < start + len ==> #[trigger] segments[j] == 0,
        ends_groups(rest),
    ensures
        read_v6(
            coloned(segments.take(start)) + seq![':', ':'] + coloned(segments.skip(start + len))
                + rest,
        ) == Some((segments, rest)),
{
    let head = segments.take(start);
    let tail = segments.skip(start + len);
    let u = coloned(tail) + rest;
    let after = seq![':', ':'] + u;
    let s = coloned(head) + seq![':', ':'] + coloned(tail) + rest;
    assert(s =~= coloned(head) + after);
    lemma_read_groups(head, 0, 8, after);
    assert(head.skip(0) =~= head);
    assert(after[0] == ':');
    assert(after.skip(1)[0] == ':');
    assert(after.skip(1).skip(1) =~= u);
    lemma_read_groups(tail, 0, (7 - start) as nat, rest);
    assert(tail.skip(0) =~= tail);
    let zeros = Seq::new(len as nat, |i: int| 0u16);
    assert(head + zeros + tail =~= segments);
}

/// A written IPv6 address is read back, whatever follows it that cannot belong
/// to it.
proof fn lemma_read_v6(segments: Seq<u16>, rest: Seq<char>)
    requires
        segments.len() == 8,
        ends_groups(rest),
    ensures
        read_v6(v6_text(segments) + rest) == Some((segments, rest)),
{
    let start = longest_run(segments, 8) as int;
    let len = zero_run(segments, start) as int;
    lemma_longest_run(segments, 8);
    lemma_zero_run(segments, start);
    if is_v4_mapped(segments) {
        lemma_read_v6_mapped(segments, rest);
    } else if len > 1 {
        reveal_strlit("::");
        assert("::"@ =~= seq![':', ':']);
        lemma_read_v6_compressed(segments, start, len, rest);
    } else {
        lemma_read_groups(segments, 0, 8, rest);
        assert(segments.skip(0) =~= segments);
    }
}

/// Neither the first nor the last character of an address's text is white space.
pub proof fn lemma_addr_text_ends(addr: SocketAddr)
    ensures
        addr_text(addr@).len() > 0,
        !text::is_white_space(addr_text(addr@)[0]),
        !text::is_white_space(addr_text(addr@).last()),
{
    let s = addr_text(addr@);
    let port = text::number_text(addr@.port() as nat, 10);
    text::lemma_number_text(addr@.port() as nat, 10);
    assert(s.last() == port.last());
    match addr {
        SocketAddr::V4 { octets, port } => {
            let first = text::number_text(octets@[0] as nat, 10);
            text::lemma_number_text(octets@[0] as nat, 10);
            assert(octet_numbers(octets@)[0] == octets@[0] as nat);
            assert(s[0] == first[0]);
        },
        SocketAddr::V6 { segments, port, flowinfo, scope_id } => {
            reveal_strlit("[");
            assert(s[0] == '[');
        },
    }
}

/// The text form of an address denotes that address, and nothing is lost on the
/// way but the flow information of an IPv6 address, which the text does not show.
pub proof fn law_address_text_round_trip(addr: SocketAddr)
    requires
        addr matches SocketAddr::V6 { segments, port, flowinfo, scope_id } ==> flowinfo == 0,
    ensures
        parsed_addr(addr_text(addr@)) == Some(addr@),
{
    reveal_strlit(":");
    reveal_strlit("[");
    reveal_strlit("]:");
    reveal_strlit("%");
    let s = addr_text(addr@);
    let empty = Seq::<char>::empty();
    match addr {
        SocketAddr::V4 { octets, port } => {
            let p = text::number_text(port as nat, 10);
            let rest = seq![':'] + p;
            assert(s =~= dotted(octets@) + rest);
            lemma_read_octets(octets@, 0, rest);
            assert(octets@.skip(0) =~= octets@);
            assert(rest.skip(1) =~= p + empty);
            text::lemma_read_number_text(port as nat, 10, None, true, 0xffff, empty);
        },
        SocketAddr::V6 { segments, port, flowinfo, scope_id } => {
            let p = text::number_text(port as nat, 10);
            let port_part = seq![':'] + p;
            let close = seq![']'] + port_part;
            let rest = scope_text(scope_id) + close;
            assert(s =~= seq!['['] + (v6_text(segments@) + rest));
            assert(s[0] == '[');
            assert(read_octets(s, 0) is None);
            assert(s.skip(1) =~= v6_text(segments@) + rest);
            lemma_read_v6(segments@, rest);
            if scope_id == 0 {
                assert(rest =~= close);
            } else {
                let n = text::number_text(scope_id as nat, 10);
                assert(rest[0] == '%');
                assert(rest.skip(1) =~= n + close);
                text::lemma_read_number_text(
                    scope_id as nat,
                    10,
                    None,
                    true,
                    0xffff_ffff,
                    close,
                );
            }
            assert(read_scope(rest) == (scope_id as nat, close));
            assert(close.skip(1) =~= port_part);
            assert(port_part.skip(1) =~= p + empty);
            text::lemma_read_number_text(port as nat, 10, None, true, 0xffff, empty);
        },
    }
}

// ---------------------------------------------------------------------------
// How addresses are written and what is read as one
// ---------------------------------------------------------------------------

/// An address is shown with all of its parts.
pub proof fn law_address_view_shows_everything(addr: SocketAddr)
    ensures
        match addr {
            SocketAddr::V4 { octets, port } => {
                &&& addr@ matches AddrView::V4 { octets: o, port: p } && o == octets@ && p == port
                &&& addr@.port() == port
            },
            SocketAddr::V6 { segments, port, flowinfo, scope_id } => {
                &&& addr@ matches AddrView::V6 { segments: s, port: p, flowinfo: f, scope_id: i }
                    && s == segments@ && p == port && f == flowinfo && i == scope_id
                &&& addr@.port() == port
            },
        },
{
}

/// One more number at the end of a list is written behind one more separator, if it
/// is not the first.
proof fn lemma_list_text_push(v: Seq<nat>, n: nat, from: nat, radix: nat, sep: char)
    requires
        from <= v.len(),
    ensures
        list_text(v.push(n), from, radix, sep) == list_text(v, from, radix, sep) + (if v.len()
            == 0 {
            Seq::empty()
        } else {
            seq![sep]
        }) + text::number_text(n, radix),
    decreases v.len() - from,
{
    let w = v.push(n);
    let empty = Seq::<char>::empty();
    if from == v.len() {
        assert(list_text(w, from + 1, radix, sep) =~= empty);
        assert(list_text(v, from, radix, sep) =~= empty);
        assert(w[from as int] == n);
    } else {
        lemma_list_text_push(v, n, from + 1, radix, sep);
        assert(w[from as int] == v[from as int]);
    }
    assert(list_text(w, from, radix, sep) =~= list_text(v, from, radix, sep) + (if v.len() == 0 {
        empty
    } else {
        seq![sep]
    }) + text::number_text(n, radix));
}

/// Octets are written in decimal with dots between them, groups in hexadecimal with
/// colons between them: a further one comes behind the separator, the first without.
pub proof fn law_separators_stand_between(
    octets: Seq<u8>,
    octet: u8,
    groups: Seq<u16>,
    group: u16,
)
    ensures
        dotted(Seq::empty()).len() == 0,
        dotted(seq![octet]) == text::number_text(octet as nat, 10),
        octets.len() > 0 ==> dotted(octets.push(octet)) == dotted(octets) + seq!['.']
            + text::number_text(octet as nat, 10),
        coloned(Seq::empty()).len() == 0,
        coloned(seq![group]) == text::number_text(group as nat, 16),
        groups.len() > 0 ==> coloned(groups.push(group)) == coloned(groups) + seq![':']
            + text::number_text(group as nat, 16),
{
    let none = Seq::<nat>::empty();
    assert(octet_numbers(octets.push(octet)) =~= octet_numbers(octets).push(octet as nat));
    lemma_list_text_push(octet_numbers(octets), octet as nat, 0, 10, '.');
    assert(group_numbers(groups.push(group)) =~= group_numbers(groups).push(group as nat));
    lemma_list_text_push(group_numbers(groups), group as nat, 0, 16, ':');
    assert(octet_numbers(seq![octet]) =~= none.push(octet as nat));
    lemma_list_text_push(none, octet as nat, 0, 10, '.');
    assert(group_numbers(seq![group]) =~= none.push(group as nat));
    lemma_list_text_push(none, group as nat, 0, 16, ':');
    assert(list_text(none, 0, 10, '.') =~= Seq::<char>::empty());
    assert(list_text(none, 0, 16, ':') =~= Seq::<char>::empty());
    assert(dotted(seq![octet]) =~= text::number_text(octet as nat, 10));
    assert(coloned(seq![group]) =~= text::number_text(group as nat, 16));
}

/// The port stands behind a colon, in decimal; an IPv6 address before it in brackets,
/// with its scope behind a percent sign unless it is zero.
pub proof fn law_address_text(
    octets: Seq<u8>,
    segments: Seq<u16>,
    port: u16,
    flow: u32,
    scope: u32,
)
    ensures
        addr_text(AddrView::V4 { octets, port }) == dotted(octets) + seq![':']
            + text::number_text(port as nat, 10),
        addr_text(AddrView::V6 { segments, port, flowinfo: flow, scope_id: 0 }) == seq!['[']
            + v6_text(segments) + seq![']', ':'] + text::number_text(port as nat, 10),
        scope != 0 ==> addr_text(
            AddrView::V6 { segments, port, flowinfo: flow, scope_id: scope },
        ) == seq!['['] + v6_text(segments) + seq!['%'] + text::number_text(scope as nat, 10)
            + seq![']', ':'] + text::number_text(port as nat, 10),
{
    reveal_strlit(":");
    reveal_strlit("[");
    reveal_strlit("]:");
    reveal_strlit("%");
    assert(":"@ =~= seq![':']);
    assert("["@ =~= seq!['[']);
    assert("]:"@ =~= seq![']', ':']);
    assert("%"@ =~= seq!['%']);
    let zero = addr_text(AddrView::V6 { segments, port, flowinfo: flow, scope_id: 0 });
    assert(zero =~= seq!['['] + v6_text(segments) + seq![']', ':'] + text::number_text(
        port as nat,
        10,
    ));
    if scope != 0 {
        assert(addr_text(AddrView::V6 { segments, port, flowinfo: flow, scope_id: scope }) =~= seq![
            '[',
        ] + v6_text(segments) + seq!['%'] + text::number_text(scope as nat, 10) + seq![']', ':']
            + text::number_text(port as nat, 10));
    }
}

/// A run of zero groups is counted in full.
proof fn lemma_zero_run_covers(segments: Seq<u16>, i: int, m: int)
    requires
        0 <= i,
        0 <= m,
        i + m <= segments.len(),
        forall|j: int| i <= j < i + m ==> #[trigger] segments[j] == 0,
    ensures
        zero_run(segments, i) >= m,
    decreases m,
{
    if m > 0 {
        assert(segments[i] == 0);
        lemma_zero_run_covers(segments, i + 1, m - 1);
    }
}

/// No run is longer than the longest, and none before it is as long.
proof fn lemma_longest_run_is_longest(segments: Seq<u16>, n: nat, j: int)
    requires
        0 <= j < n,
    ensures
        zero_run(segments, j) <= zero_run(segments, longest_run(segments, n) as int),
        j < longest_run(segments, n) ==> zero_run(segments, j) < zero_run(
            segments,
            longest_run(segments, n) as int,
        ),
    decreases n,
{
    if n > 1 {
        let best = longest_run(segments, (n - 1) as nat);
        lemma_longest_run(segments, (n - 1) as nat);
        if j < n - 1 {
            lemma_longest_run_is_longest(segments, (n - 1) as nat, j);
        }
    }
}

/// In an IPv6 address the longest run of two or more zero groups, and of equally long
/// ones the first, is left out between two colons.
#[verifier::rlimit(40)]
pub proof fn law_longest_zero_run_is_left_out(segments: Seq<u16>, start: int, len: int)
    requires
        segments.len() == 8,
        !(segments[0] == 0 && segments[1] == 0 && segments[2] == 0 && segments[3] == 0
            && segments[4] == 0 && segments[5] == 0xffff),
        0 <= start,
        len >= 2,
        start + len <= 8,
        forall|j: int| start <= j < start + len ==> #[trigger] segments[j] == 0,
        forall|i: int, m: int|
            0 <= i && 0 <= m && i + m <= 8 && (m > len || m == len && i < start) ==> exists|j: int|
                i <= j < #[trigger] (i + m) && segments[j] != 0,
    ensures
        v6_text(segments) == coloned(segments.take(start)) + seq![':', ':'] + coloned(
            segments.skip(start + len),
        ),
{
    let best = longest_run(segments, 8) as int;
    let run = zero_run(segments, best) as int;
    lemma_longest_run(segments, 8);
    lemma_zero_run(segments, best);
    lemma_zero_run_covers(segments, start, len);
    lemma_longest_run_is_longest(segments, 8, start);
    assert(run == len && best == start) by {
        if run > len || run == len && best < start {
            assert(exists|j: int| best <= j < #[trigger] (best + run) && segments[j] != 0);
        }
    }
    assert(!is_v4_mapped(segments)) by {
        if is_v4_mapped(segments) {
            assert(segments[0] == 0 && segments[1] == 0 && segments[2] == 0 && segments[3] == 0
                && segments[4] == 0);
        }
    }
    reveal_strlit("::");
    assert("::"@ =~= seq![':', ':']);
}

/// Without two zero groups side by side all eight groups are written.
pub proof fn law_all_groups_are_written(segments: Seq<u16>)
    requires
        segments.len() == 8,
        forall|i: int| 0 <= i < 7 ==> #[trigger] segments[i] != 0 || segments[i + 1] != 0,
    ensures
        v6_text(segments) == coloned(segments),
{
    let best = longest_run(segments, 8) as int;
    lemma_longest_run(segments, 8);
    lemma_zero_run(segments, best);
    if zero_run(segments, best) > 1 {
        assert(segments[best] == 0 && segments[best + 1] == 0);
    }
    if is_v4_mapped(segments) {
        assert(segments[0] == 0 && segments[1] == 0);
    }
}

/// An IPv4 address in an IPv6 one is written with dots.
pub proof fn law_mapped_address_has_dots(a: u8, b: u8, c: u8, d: u8)
    ensures
        v6_text(
            seq![0u16, 0, 0, 0, 0, 0xffff, (a * 256 + b) as u16, (c * 256 + d) as u16],
        ) == seq![':', ':', 'f', 'f', 'f', 'f', ':'] + dotted(seq![a, b, c, d]),
{
    let segments = seq![0u16, 0, 0, 0, 0, 0xffff, (a * 256 + b) as u16, (c * 256 + d) as u16];
    assert(is_v4_mapped(segments));
    reveal_strlit("::ffff:");
    assert("::ffff:"@ =~= seq![':', ':', 'f', 'f', 'f', 'f', ':']);
    assert(halves(segments[6]) + halves(segments[7]) =~= seq![a, b, c, d]);
}

/// How four texts are put together does not matter.
proof fn lemma_regroup(a: Seq<char>, b: Seq<char>, c: Seq<char>, d: Seq<char>)
    ensures
        (a + b + c) + d == a + (b + (c + d)),
{
    assert((a + b + c) + d =~= a + (b + (c + d)));
}

/// A separator that is read is there.
proof fn lemma_separator_is_there(s: Seq<char>, sep: char, index: nat)
    ensures
        read_separator(s, sep, index) matches Some(t) ==> s == (if index == 0 {
            Seq::empty()
        } else {
            seq![sep]
        }) + t,
{
    match read_separator(s, sep, index) {
        None => {},
        Some(t) => {
            if index == 0 {
                assert(s =~= Seq::empty() + t);
            } else {
                assert(s =~= seq![sep] + t);
            }
        },
    }
}

/// An octet that is read is there in its written form.
proof fn lemma_octet_is_there(t: Seq<char>)
    ensures
        text::read_number(t, 10, Some(3), false, 255) matches Some((value, u)) ==> t
            == text::number_text(value, 10) + u && value <= 255,
{
    text::law_read_number_is_there(t, 10, Some(3), false, 255);
    match text::read_number(t, 10, Some(3), false, 255) {
        None => {},
        Some((value, u)) => {
            let count = t.len() - u.len();
            assert(t =~= t.take(count) + t.skip(count));
        },
    }
}

/// Octets that are read are written there.
#[verifier::rlimit(40)]
proof fn lemma_octets_are_there(s: Seq<char>, before: Seq<u8>)
    requires
        before.len() <= 4,
    ensures
        read_octets(s, before.len()) matches Some((octets, rest)) ==> octets.len() == 4
            - before.len() && s == list_text(
            octet_numbers(before + octets),
            before.len(),
            10,
            '.',
        ) + rest,
    decreases 4 - before.len(),
{
    let index = before.len();
    if index == 4 {
        let none = Seq::<u8>::empty();
        assert(list_text(octet_numbers(before + none), 4, 10, '.') =~= Seq::empty());
        assert(s =~= Seq::empty() + s);
    } else if read_octets(s, index) is Some {
        let t = read_separator(s, '.', index)->0;
        let (value, u) = text::read_number(t, 10, Some(3), false, 255)->0;
        let (tail, rest) = read_octets(u, index + 1)->0;
        let octets = seq![value as u8] + tail;
        assert(read_octets(s, index) == Some((octets, rest)));
        lemma_separator_is_there(s, '.', index);
        lemma_octet_is_there(t);
        let more = before.push(value as u8);
        lemma_octets_are_there(u, more);
        assert(before + octets =~= more + tail);
        let nums = octet_numbers(before + octets);
        assert((before + octets)[index as int] == value as u8);
        assert(nums[index as int] == value);
        let sep = if index == 0 {
            Seq::<char>::empty()
        } else {
            seq!['.']
        };
        let digits = text::number_text(value, 10);
        let others = list_text(nums, index + 1, 10, '.');
        assert(list_text(nums, index, 10, '.') == sep + digits + others);
        assert(u == others + rest);
        lemma_regroup(sep, digits, others, rest);
    }
}

/// A text is read as an IPv4 address only if it is that address as it is written, but
/// for zeros in front of the port.
pub proof fn law_v4_text_is_the_only_one(s: Seq<char>)
    ensures
        parsed_addr(s) matches Some(AddrView::V4 { octets, port }) ==> octets.len() == 4 && exists|
            digits: Seq<char>,
        |
            {
                &&& s == #[trigger] (dotted(octets) + seq![':'] + digits)
                &&& digits.len() > 0
                &&& forall|i: int| 0 <= i < digits.len() ==> '0' <= #[trigger] digits[i] <= '9'
                &&& text::digits_value(digits, 10) == port
            },
{
    match parsed_addr(s) {
        Some(AddrView::V4 { octets, port }) => {
            let (o, t) = read_octets(s, 0)->0;
            lemma_octets_are_there(s, Seq::empty());
            assert(Seq::<u8>::empty() + o =~= o);
            lemma_port_is_there(t);
            let digits = t.skip(1);
            assert(s =~= dotted(octets) + seq![':'] + digits);
        },
        _ => {},
    }
}

/// A port that is read to the end is a colon and its digits.
proof fn lemma_port_is_there(t: Seq<char>)
    ensures
        read_port(t) matches Some((port, rest)) ==> rest.len() == 0 ==> {
            let digits = t.skip(1);
            &&& t.len() > 1
            &&& t[0] == ':'
            &&& t == seq![':'] + digits
            &&& forall|i: int| 0 <= i < digits.len() ==> '0' <= #[trigger] digits[i] <= '9'
            &&& text::digits_value(digits, 10) == port <= 0xffff
        },
{
    match read_port(t) {
        None => {},
        Some((port, rest)) => {
            let digits = t.skip(1);
            text::law_read_number_is_there(digits, 10, None, true, 0xffff);
            if rest.len() == 0 {
                assert(digits.take(digits.len() as int) =~= digits);
                assert(t =~= seq![':'] + digits);
                assert forall|i: int| 0 <= i < digits.len() implies '0' <= #[trigger] digits[i]
                    <= '9' by {
                    text::law_digits_stand_for_a_number(Seq::empty(), digits[i], 10);
                }
            }
        },
    }
}

/// Whether the text is a run of decimal digits.
pub open spec fn is_decimal(t: Seq<char>) -> bool {
    &&& t.len() > 0
    &&& forall|i: int| 0 <= i < t.len() ==> '0' <= #[trigger] t[i] <= '9'
}

/// Whether the text is that of a group: one to four hexadecimal digits, large or
/// small, with or without zeros in front.
pub open spec fn is_group_text(t: Seq<char>) -> bool {
    &&& 1 <= t.len() <= 4
    &&& forall|i: int|
        0 <= i < t.len() ==> '0' <= #[trigger] t[i] <= '9' || 'a' <= t[i] <= 'f' || 'A' <= t[i]
            <= 'F'
}

/// The texts from index `from` on, with a colon in front of each but the very first.
pub open spec fn separated(texts: Seq<Seq<char>>, from: nat) -> Seq<char>
    decreases texts.len() - from,
{
    if from >= texts.len() {
        Seq::empty()
    } else {
        (if from == 0 {
            Seq::empty()
        } else {
            seq![':']
        }) + texts[from as int] + separated(texts, from + 1)
    }
}

/// The octets that may end a list of groups, behind a colon where there are groups.
pub open spec fn dots_text(texts: Seq<Seq<char>>, dots: Option<Seq<u8>>) -> Seq<char> {
    match dots {
        None => Seq::empty(),
        Some(octets) => if texts.len() == 0 {
            dotted(octets)
        } else {
            seq![':'] + dotted(octets)
        },
    }
}

/// The groups that texts and octets stand for; four octets are two groups.
pub open spec fn group_list(texts: Seq<Seq<char>>, dots: Option<Seq<u8>>) -> Seq<u16> {
    texts.map_values(|t: Seq<char>| text::digits_value(t, 16) as u16) + (match dots {
        None => Seq::empty(),
        Some(o) => seq![(o[0] * 256 + o[1]) as u16, (o[2] * 256 + o[3]) as u16],
    })
}

/// One of the ways to write an IPv6 socket address.
///
/// There are groups, and where `tail` is given a double colon and more groups; the
/// last two groups may be four octets with dots; a scope may follow; and the port.
pub struct V6Spelling {
    pub head: Seq<Seq<char>>,
    pub tail: Option<Seq<Seq<char>>>,
    pub dots: Option<Seq<u8>>,
    pub scope: Option<Seq<char>>,
    pub port: Seq<char>,
}

impl V6Spelling {
    /// Without a double colon there are eight groups, with one at most seven, and all
    /// numbers are within their bounds.
    pub open spec fn well_formed(self) -> bool {
        &&& forall|i: int| 0 <= i < self.head.len() ==> is_group_text(#[trigger] self.head[i])
        &&& self.dots matches Some(octets) ==> octets.len() == 4
        &&& match self.tail {
            None => group_list(self.head, self.dots).len() == 8,
            Some(tail) => {
                &&& forall|i: int| 0 <= i < tail.len() ==> is_group_text(#[trigger] tail[i])
                &&& self.head.len() + group_list(tail, self.dots).len() <= 7
            },
        }
        &&& self.scope matches Some(scope) ==> is_decimal(scope) && text::digits_value(scope, 10)
            <= 0xffff_ffff
        &&& is_decimal(self.port)
        &&& text::digits_value(self.port, 10) <= 0xffff
    }

    /// The groups as they are written.
    pub open spec fn body(self) -> Seq<char> {
        match self.tail {
            None => separated(self.head, 0) + dots_text(self.head, self.dots),
            Some(tail) => separated(self.head, 0) + seq![':', ':'] + separated(tail, 0) + dots_text(
                tail,
                self.dots,
            ),
        }
    }

    /// What follows the groups.
    pub open spec fn ending(self) -> Seq<char> {
        (match self.scope {
            None => Seq::empty(),
            Some(scope) => seq!['%'] + scope,
        }) + seq![']', ':'] + self.port
    }

    /// The whole text.
    pub open spec fn text(self) -> Seq<char> {
        seq!['['] + self.body() + self.ending()
    }

    /// The eight groups; those that the double colon stands for are zero.
    pub open spec fn segments(self) -> Seq<u16> {
        match self.tail {
            None => group_list(self.head, self.dots),
            Some(tail) => {
                let front = group_list(self.head, None);
                let back = group_list(tail, self.dots);
                front + Seq::new((8 - front.len() - back.len()) as nat, |i: int| 0u16) + back
            },
        }
    }

    /// The address that is spelled.
    pub open spec fn address(self) -> AddrView {
        AddrView::V6 {
            segments: self.segments(),
            port: text::digits_value(self.port, 10) as u16,
            flowinfo: 0,
            scope_id: match self.scope {
                None => 0,
                Some(scope) => text::digits_value(scope, 10) as u32,
            },
        }
    }
}

/// Decimal digits are read as their number.
proof fn lemma_decimal_is_read(t: Seq<char>, max: nat, rest: Seq<char>)
    requires
        is_decimal(t),
        text::digits_value(t, 10) <= max,
        rest.len() == 0 || !('0' <= rest[0] <= '9'),
    ensures
        text::read_number(t + rest, 10, None, true, max) == Some((text::digits_value(t, 10), rest)),
{
    assert forall|i: int| 0 <= i < t.len() implies text::is_digit(#[trigger] t[i], 10) by {
        text::law_digit_characters(t[i]);
    }
    if rest.len() > 0 {
        text::law_digit_characters(rest[0]);
    }
    text::law_digits_are_read(t, 10, None, true, max, rest);
}

/// The text of a group is hexadecimal digits for sixteen bits.
proof fn lemma_group_text(t: Seq<char>)
    requires
        is_group_text(t),
    ensures
        forall|i: int| 0 <= i < t.len() ==> text::is_digit(#[trigger] t[i], 16),
        text::digits_value(t, 16) <= 0xffff,
{
    assert forall|i: int| 0 <= i < t.len() implies text::is_digit(#[trigger] t[i], 16) by {
        text::law_digit_characters(t[i]);
    }
    text::lemma_four_digits(t);
}

/// A text with one more group in front of `more` is read as that group and `more`.
proof fn lemma_group_is_read(t: Seq<char>, index: nat, limit: nat, more: Seq<char>)
    requires
        is_group_text(t),
        index < limit,
        more.len() == 0 || !text::is_digit(more[0], 16) && more[0] != '.',
    ensures
        read_groups(
            (if index == 0 {
                Seq::empty()
            } else {
                seq![':']
            }) + t + more,
            index,
            limit,
        ) == ({
            let (groups, dotted_tail, rest) = read_groups(more, index + 1, limit);
            (seq![text::digits_value(t, 16) as u16] + groups, dotted_tail, rest)
        }),
{
    let body = t + more;
    let s = (if index == 0 {
        Seq::empty()
    } else {
        seq![':']
    }) + t + more;
    if index == 0 {
        assert(s =~= body);
    } else {
        assert(s.skip(1) =~= body);
        assert(s[0] == ':');
    }
    lemma_group_text(t);
    assert forall|i: int| 0 <= i < t.len() implies text::is_digit(#[trigger] body[i], 16) by {
        assert(body[i] == t[i]);
    }
    lemma_no_octets(body, t.len() as int);
    text::law_digits_are_read(t, 16, Some(4), true, 0xffff, more);
}

/// Groups and octets are read, whatever follows them that cannot belong to them.
#[verifier::rlimit(40)]
proof fn lemma_group_list_is_read(
    texts: Seq<Seq<char>>,
    dots: Option<Seq<u8>>,
    index: nat,
    limit: nat,
    rest: Seq<char>,
)
    requires
        index <= texts.len(),
        forall|i: int| 0 <= i < texts.len() ==> is_group_text(#[trigger] texts[i]),
        dots matches Some(octets) ==> octets.len() == 4,
        group_list(texts, dots).len() <= limit,
        ends_groups(rest),
    ensures
        read_groups(separated(texts, index) + dots_text(texts, dots) + rest, index, limit) == (
            group_list(texts, dots).skip(index as int),
            dots is Some,
            rest,
        ),
    decreases texts.len() - index,
{
    let end = dots_text(texts, dots) + rest;
    let s = separated(texts, index) + dots_text(texts, dots) + rest;
    let groups = group_list(texts, dots);
    if index == texts.len() {
        assert(s =~= end);
        match dots {
            None => {
                assert(s =~= rest);
                assert(groups.skip(index as int) =~= Seq::<u16>::empty());
                if index < limit {
                    match read_separator(rest, ':', index) {
                        None => {},
                        Some(t) => {
                            assert(t.len() == 0 || !text::is_digit(t[0], 16) && t[0] != '.');
                            lemma_no_octets(t, 0);
                        },
                    }
                }
            },
            Some(octets) => {
                let t = dotted(octets) + rest;
                if index == 0 {
                    assert(s =~= t);
                } else {
                    assert(s[0] == ':');
                    assert(s.skip(1) =~= t);
                }
                if rest.len() > 0 {
                    text::law_digit_characters(rest[0]);
                }
                lemma_read_octets(octets, 0, rest);
                assert(octets.skip(0) =~= octets);
                assert(groups.skip(index as int) =~= seq![
                    joined(octets[0], octets[1]),
                    joined(octets[2], octets[3]),
                ]);
            },
        }
    } else {
        let t = texts[index as int];
        let more = separated(texts, index + 1) + dots_text(texts, dots) + rest;
        let sep = if index == 0 {
            Seq::<char>::empty()
        } else {
            seq![':']
        };
        assert(s =~= sep + t + more);
        assert(more.len() == 0 || !text::is_digit(more[0], 16) && more[0] != '.') by {
            if index + 1 < texts.len() || dots is Some {
                assert(more[0] == ':');
            } else {
                assert(more =~= rest);
            }
        }
        lemma_group_is_read(t, index, limit, more);
        lemma_group_list_is_read(texts, dots, index + 1, limit, rest);
        assert(groups[index as int] == text::digits_value(t, 16) as u16);
        assert(seq![text::digits_value(t, 16) as u16] + groups.skip((index + 1) as int)
            =~= groups.skip(index as int));
    }
}

/// A spelled body is read as its groups.
#[verifier::rlimit(40)]
proof fn lemma_spelled_body_is_read(spelling: V6Spelling, rest: Seq<char>)
    requires
        spelling.well_formed(),
        ends_groups(rest),
    ensures
        read_v6(spelling.body() + rest) == Some((spelling.segments(), rest)),
{
    let head = spelling.head;
    match spelling.tail {
        None => {
            lemma_group_list_is_read(head, spelling.dots, 0, 8, rest);
            let groups = group_list(head, spelling.dots);
            assert(groups.skip(0) =~= groups);
        },
        Some(tail) => {
            let u = separated(tail, 0) + dots_text(tail, spelling.dots) + rest;
            let after = seq![':', ':'] + u;
            assert(spelling.body() + rest =~= separated(head, 0) + dots_text(head, None) + after);
            lemma_group_list_is_read(head, None, 0, 8, after);
            let front = group_list(head, None);
            assert(front.skip(0) =~= front);
            assert(after[0] == ':');
            assert(after.skip(1)[0] == ':');
            assert(after.skip(1).skip(1) =~= u);
            lemma_group_list_is_read(tail, spelling.dots, 0, (7 - front.len()) as nat, rest);
            let back = group_list(tail, spelling.dots);
            assert(back.skip(0) =~= back);
            let zeros = Seq::new((8 - front.len() - back.len()) as nat, |i: int| 0u16);
            assert(front + zeros + back =~= spelling.segments());
        },
    }
}

/// Whatever way an IPv6 address is spelled, it is read.
#[verifier::rlimit(40)]
pub proof fn law_every_v6_spelling_is_read(spelling: V6Spelling)
    requires
        spelling.well_formed(),
    ensures
        parsed_addr(spelling.text()) == Some(spelling.address()),
{
    let s = spelling.text();
    let p = spelling.port;
    let empty = Seq::<char>::empty();
    let port_part = seq![':'] + p;
    let close = seq![']'] + port_part;
    let rest = spelling.ending();
    assert(s =~= seq!['['] + (spelling.body() + rest));
    assert(s[0] == '[');
    assert(read_octets(s, 0) is None);
    assert(s.skip(1) =~= spelling.body() + rest);
    match spelling.scope {
        None => {
            assert(rest =~= close);
            text::law_digit_characters(']');
        },
        Some(scope) => {
            assert(rest[0] == '%');
            assert(rest.skip(1) =~= scope + close);
            lemma_decimal_is_read(scope, 0xffff_ffff, close);
            text::law_digit_characters('%');
        },
    }
    lemma_spelled_body_is_read(spelling, rest);
    assert(read_scope(rest).1 == close);
    assert(close.skip(1) =~= port_part);
    assert(port_part.skip(1) =~= p + empty);
    lemma_decimal_is_read(p, 0xffff, empty);
}

/// An IPv4 address is read whatever zeros stand in front of its port.
pub proof fn law_v4_text_is_read(octets: Seq<u8>, digits: Seq<char>)
    requires
        octets.len() == 4,
        digits.len() > 0,
        forall|i: int| 0 <= i < digits.len() ==> '0' <= #[trigger] digits[i] <= '9',
        text::digits_value(digits, 10) <= 0xffff,
    ensures
        parsed_addr(dotted(octets) + seq![':'] + digits) == Some(
            AddrView::V4 { octets, port: text::digits_value(digits, 10) as u16 },
        ),
{
    let empty = Seq::<char>::empty();
    let rest = seq![':'] + digits;
    text::law_digit_characters(':');
    assert(dotted(octets) + seq![':'] + digits =~= dotted(octets) + rest);
    lemma_read_octets(octets, 0, rest);
    assert(octets.skip(0) =~= octets);
    assert(rest.skip(1) =~= digits + empty);
    lemma_decimal_is_read(digits, 0xffff, empty);
}

/// A group that is read is there.
proof fn lemma_group_is_there(t: Seq<char>)
    ensures
        text::read_number(t, 16, Some(4), true, 0xffff) matches Some((value, u)) ==> ({
            let digits = t.take(t.len() - u.len());
            &&& u.len() < t.len()
            &&& t == digits + u
            &&& is_group_text(digits)
            &&& text::digits_value(digits, 16) == value <= 0xffff
        }),
{
    text::law_read_number_is_there(t, 16, Some(4), true, 0xffff);
    match text::read_number(t, 16, Some(4), true, 0xffff) {
        None => {},
        Some((value, u)) => {
            let count = t.len() - u.len();
            let digits = t.take(count);
            assert(t =~= digits + t.skip(count));
            assert forall|i: int| 0 <= i < digits.len() implies '0' <= #[trigger] digits[i] <= '9'
                || 'a' <= digits[i] <= 'f' || 'A' <= digits[i] <= 'F' by {
                assert(digits[i] == t[i]);
                text::law_digit_characters(digits[i]);
            }
        },
    }
}

/// Where no group is left, nothing is written in front of what follows.
proof fn lemma_no_group_left(texts: Seq<Seq<char>>, rest: Seq<char>)
    ensures
        group_list(texts, None).skip(texts.len() as int) == Seq::<u16>::empty(),
        rest == separated(texts, texts.len()) + dots_text(texts, None) + rest,
{
    assert(group_list(texts, None).skip(texts.len() as int) =~= Seq::<u16>::empty());
    assert(rest =~= separated(texts, texts.len()) + dots_text(texts, None) + rest);
}

/// Where only the octets are left, they stand behind their colon.
proof fn lemma_octets_left(texts: Seq<Seq<char>>, octets: Seq<u8>, s: Seq<char>, rest: Seq<char>)
    requires
        octets.len() == 4,
        s == (if texts.len() == 0 {
            Seq::empty()
        } else {
            seq![':']
        }) + (dotted(octets) + rest),
    ensures
        group_list(texts, Some(octets)).skip(texts.len() as int) == seq![
            joined(octets[0], octets[1]),
            joined(octets[2], octets[3]),
        ],
        s == separated(texts, texts.len()) + dots_text(texts, Some(octets)) + rest,
{
    assert(group_list(texts, Some(octets)).skip(texts.len() as int) =~= seq![
        joined(octets[0], octets[1]),
        joined(octets[2], octets[3]),
    ]);
    assert(separated(texts, texts.len()) =~= Seq::<char>::empty());
    assert(s =~= separated(texts, texts.len()) + dots_text(texts, Some(octets)) + rest);
}

/// The group at an index stands in front of those behind it.
proof fn lemma_group_in_front(
    texts: Seq<Seq<char>>,
    dots: Option<Seq<u8>>,
    index: nat,
    u: Seq<char>,
    rest: Seq<char>,
)
    requires
        index < texts.len(),
        u == separated(texts, index + 1) + dots_text(texts, dots) + rest,
    ensures
        (if index == 0 {
            Seq::empty()
        } else {
            seq![':']
        }) + (texts[index as int] + u) == separated(texts, index) + dots_text(texts, dots) + rest,
        seq![text::digits_value(texts[index as int], 16) as u16] + group_list(texts, dots).skip(
            (index + 1) as int,
        ) == group_list(texts, dots).skip(index as int),
{
    let sep = if index == 0 {
        Seq::<char>::empty()
    } else {
        seq![':']
    };
    let digits = texts[index as int];
    let later = separated(texts, index + 1);
    let octets = dots_text(texts, dots);
    assert(separated(texts, index) == sep + digits + later);
    assert(sep + (digits + (later + octets + rest)) =~= (sep + digits + later) + octets + rest);
    let all = group_list(texts, dots);
    assert(all[index as int] == text::digits_value(digits, 16) as u16);
    assert(seq![text::digits_value(digits, 16) as u16] + all.skip((index + 1) as int)
        =~= all.skip(index as int));
}

/// Groups that are read are written there: the texts from index `before.len()` on,
/// and the octets, if any.
#[verifier::rlimit(40)]
proof fn lemma_groups_are_there(s: Seq<char>, before: Seq<Seq<char>>, limit: nat) -> (res: (
    Seq<Seq<char>>,
    Option<Seq<u8>>,
))
    requires
        before.len() <= limit,
        forall|i: int| 0 <= i < before.len() ==> is_group_text(#[trigger] before[i]),
    ensures
        ({
            let (texts, dots) = res;
            let (groups, dotted_tail, rest) = read_groups(s, before.len(), limit);
            &&& before.len() <= texts.len()
            &&& texts.take(before.len() as int) == before
            &&& forall|i: int| 0 <= i < texts.len() ==> is_group_text(#[trigger] texts[i])
            &&& dots is Some == dotted_tail
            &&& dots matches Some(octets) ==> octets.len() == 4
            &&& group_list(texts, dots).len() <= limit
            &&& groups == group_list(texts, dots).skip(before.len() as int)
            &&& s == separated(texts, before.len()) + dots_text(texts, dots) + rest
        }),
    decreases limit - before.len(),
{
    let index = before.len();
    let none: Option<Seq<u8>> = None;
    assert(before.take(index as int) =~= before);
    lemma_separator_is_there(s, ':', index);
    let t = read_separator(s, ':', index)->0;
    if index >= limit || read_separator(s, ':', index) is None {
        assert(read_groups(s, index, limit) == (Seq::<u16>::empty(), false, s));
        lemma_no_group_left(before, s);
        (before, none)
    } else if index + 1 < limit && read_octets(t, 0) is Some {
        let (o, rest) = read_octets(t, 0)->0;
        lemma_octets_are_there(t, Seq::empty());
        assert(Seq::<u8>::empty() + o =~= o);
        lemma_octets_left(before, o, s, rest);
        (before, Some(o))
    } else if text::read_number(t, 16, Some(4), true, 0xffff) is None {
        assert(read_groups(s, index, limit) == (Seq::<u16>::empty(), false, s));
        lemma_no_group_left(before, s);
        (before, none)
    } else {
        let (value, u) = text::read_number(t, 16, Some(4), true, 0xffff)->0;
        let (others, flag, rest) = read_groups(u, index + 1, limit);
        assert(read_groups(s, index, limit) == (seq![value as u16] + others, flag, rest));
        lemma_group_is_there(t);
        let digits = t.take(t.len() - u.len());
        let more = before.push(digits);
        let (texts, dots) = lemma_groups_are_there(u, more, limit);
        assert(texts[index as int] == digits && texts.take(index as int) == before) by {
            assert(texts.take((index + 1) as int)[index as int] == more[index as int]);
            assert forall|i: int| 0 <= i < index implies #[trigger] texts[i] == before[i] by {
                assert(texts.take((index + 1) as int)[i] == more[i]);
            }
            assert(texts.take(index as int) =~= before);
        }
        lemma_group_in_front(texts, dots, index, u, rest);
        (texts, dots)
    }
}

/// A scope that is read is a percent sign and decimal digits.
proof fn lemma_scope_is_there(u: Seq<char>) -> (scope: Option<Seq<char>>)
    ensures
        ({
            let (value, v) = read_scope(u);
            &&& u == (match scope {
                None => Seq::empty(),
                Some(digits) => seq!['%'] + digits,
            }) + v
            &&& scope matches Some(digits) ==> is_decimal(digits)
            &&& value == (match scope {
                None => 0,
                Some(digits) => text::digits_value(digits, 10),
            })
            &&& value <= 0xffff_ffff
        }),
{
    let t = u.skip(1);
    if read_char(u, '%') is Some && text::read_number(t, 10, None, true, 0xffff_ffff) is Some {
        let (value, v) = text::read_number(t, 10, None, true, 0xffff_ffff)->0;
        text::law_read_number_is_there(t, 10, None, true, 0xffff_ffff);
        let count = t.len() - v.len();
        let digits = t.take(count);
        assert forall|i: int| 0 <= i < digits.len() implies '0' <= #[trigger] digits[i] <= '9' by {
            assert(digits[i] == t[i]);
            text::law_digit_characters(digits[i]);
        }
        assert(u =~= seq!['%'] + digits + v);
        Some(digits)
    } else {
        assert(u =~= Seq::empty() + u);
        None
    }
}

/// A body that is read is spelled there.
#[verifier::rlimit(40)]
proof fn lemma_body_is_there(
    t: Seq<char>,
    scope: Option<Seq<char>>,
    port: Seq<char>,
) -> (spelling: V6Spelling)
    requires
        scope matches Some(digits) ==> is_decimal(digits) && text::digits_value(digits, 10)
            <= 0xffff_ffff,
        is_decimal(port),
        text::digits_value(port, 10) <= 0xffff,
        read_v6(t) is Some,
    ensures
        spelling.well_formed(),
        spelling.scope == scope,
        spelling.port == port,
        t == spelling.body() + (read_v6(t)->0).1,
{
    let (head, dotted_tail, after) = read_groups(t, 0, 8);
    let (texts, dots) = lemma_groups_are_there(t, Seq::empty(), 8);
    let all = group_list(texts, dots);
    assert(all.skip(0) =~= all);
    if head.len() == 8 {
        V6Spelling { head: texts, tail: None, dots, scope, port }
    } else {
        let u = after.skip(1).skip(1);
        assert(after =~= seq![':', ':'] + u);
        let limit = (7 - head.len()) as nat;
        let (back, flag, rest) = read_groups(u, 0, limit);
        let (more, octets) = lemma_groups_are_there(u, Seq::empty(), limit);
        let spelling = V6Spelling { head: texts, tail: Some(more), dots: octets, scope, port };
        assert(t =~= spelling.body() + rest);
        spelling
    }
}

/// A text is read as an IPv6 address only if it spells one.
#[verifier::rlimit(40)]
pub proof fn law_v6_text_is_spelled(s: Seq<char>)
    ensures
        parsed_addr(s) is Some && parsed_addr(s)->0 is V6 ==> exists|spelling: V6Spelling|
            spelling.well_formed() && s == #[trigger] spelling.text(),
{
    if parsed_addr(s) is Some && parsed_addr(s)->0 is V6 {
        let t = s.skip(1);
        let (segments, u) = read_v6(t)->0;
        let (value, v) = read_scope(u);
        let w = v.skip(1);
        let scope = lemma_scope_is_there(u);
        lemma_port_is_there(w);
        let port = w.skip(1);
        let spelling = lemma_body_is_there(t, scope, port);
        assert(v =~= seq![']'] + w);
        assert(u =~= spelling.ending());
        assert(s =~= seq!['['] + t);
        assert(s =~= spelling.text());
    }
}

} // verus!
