//! Textual form of addresses and of the three output formats.
//!
//! A v4 address prints as four decimal octets.  A v6 address prints in the
//! usual compressed notation: lower-case hex groups separated by colons,
//! the leftmost longest run of at least two zero groups folded to `::`, and
//! a v4-mapped address in the mixed `::ffff:a.b.c.d` form.

use vstd::prelude::*;
use crate::cidr::IpAddress;

verus! {

/// The character of one digit in base 16 (base 10 uses the first ten).
pub open spec fn digit16(d: int) -> char {
    if d == 0 {
        '0'
    } else if d == 1 {
        '1'
    } else if d == 2 {
        '2'
    } else if d == 3 {
        '3'
    } else if d == 4 {
        '4'
    } else if d == 5 {
        '5'
    } else if d == 6 {
        '6'
    } else if d == 7 {
        '7'
    } else if d == 8 {
        '8'
    } else if d == 9 {
        '9'
    } else if d == 10 {
        'a'
    } else if d == 11 {
        'b'
    } else if d == 12 {
        'c'
    } else if d == 13 {
        'd'
    } else if d == 14 {
        'e'
    } else {
        'f'
    }
}

/// The decimal digits of `n`, most significant first, no leading zeros.
pub open spec fn dec_chars(n: int) -> Seq<char>
    recommends
        n >= 0,
    decreases n,
{
    if n < 10 {
        seq![digit16(n)]
    } else {
        dec_chars(n / 10).push(digit16(n % 10))
    }
}

/// The lower-case hex digits of `n`, most significant first, no leading
/// zeros.
pub open spec fn hex_chars(n: int) -> Seq<char>
    recommends
        n >= 0,
    decreases n,
{
    if n < 16 {
        seq![digit16(n)]
    } else {
        hex_chars(n / 16).push(digit16(n % 16))
    }
}

fn digit_str(d: u8) -> (r: &'static str)
    requires
        d < 16,
    ensures
        r@ == seq![digit16(d as int)],
{
    proof {
        reveal_strlit("0");
        reveal_strlit("1");
        reveal_strlit("2");
        reveal_strlit("3");
        reveal_strlit("4");
        reveal_strlit("5");
        reveal_strlit("6");
        reveal_strlit("7");
        reveal_strlit("8");
        reveal_strlit("9");
        reveal_strlit("a");
        reveal_strlit("b");
        reveal_strlit("c");
        reveal_strlit("d");
        reveal_strlit("e");
        reveal_strlit("f");
    }
    let r = match d {
        0 => "0",
        1 => "1",
        2 => "2",
        3 => "3",
        4 => "4",
        5 => "5",
        6 => "6",
        7 => "7",
        8 => "8",
        9 => "9",
        10 => "a",
        11 => "b",
        12 => "c",
        13 => "d",
        14 => "e",
        _ => "f",
    };
    proof {
        assert(r@ =~= seq![digit16(d as int)]);
    }
    r
}

/// Appends the decimal form of one octet.
fn push_dec_u8(s: &mut String, n: u8)
    ensures
        final(s)@ == old(s)@ + dec_chars(n as int),
{
    if n >= 100 {
        s.append(digit_str(n / 100));
    }
    if n >= 10 {
        s.append(digit_str((n / 10) % 10));
    }
    s.append(digit_str(n % 10));
    proof {
        let v = n as int;
        if v >= 10 {
            assert(dec_chars(v) == dec_chars(v / 10).push(digit16(v % 10)));
        }
        if v >= 100 {
            assert(v / 10 >= 10 && v / 10 < 100) by (nonlinear_arith)
                requires
                    100 <= v < 256,
            ;
            assert(v / 10 / 10 == v / 100) by (nonlinear_arith);
            assert(dec_chars(v / 10) == dec_chars(v / 10 / 10).push(digit16((v / 10) % 10)));
            assert(dec_chars(v / 100) == seq![digit16(v / 100)]);
        } else if v >= 10 {
            assert(v / 10 < 10) by (nonlinear_arith)
                requires
                    10 <= v < 100,
            ;
            assert(dec_chars(v / 10) == seq![digit16(v / 10)]);
        }
        assert(s@ =~= old(s)@ + dec_chars(v));
    }
}

/// Appends the hex form of one 16-bit group.
fn push_hex_u16(s: &mut String, n: u16)
    ensures
        final(s)@ == old(s)@ + hex_chars(n as int),
{
    if n >= 0x1000 {
        s.append(digit_str((n / 0x1000) as u8));
    }
    if n >= 0x100 {
        s.append(digit_str(((n / 0x100) % 16) as u8));
    }
    if n >= 0x10 {
        s.append(digit_str(((n / 0x10) % 16) as u8));
    }
    s.append(digit_str((n % 16) as u8));
    proof {
        let v = n as int;
        if v >= 16 {
            assert(hex_chars(v) == hex_chars(v / 16).push(digit16(v % 16)));
        }
        if v >= 0x100 {
            assert(v / 16 / 16 == v / 0x100 && v / 16 >= 16 && v / 16 < 0x1000 && v / 16 % 16 == (v
                / 16) % 16) by (nonlinear_arith)
                requires
                    0x100 <= v < 0x1_0000,
            ;
            assert(hex_chars(v / 16) == hex_chars(v / 0x100).push(digit16((v / 16) % 16)));
        }
        if v >= 0x1000 {
            assert(v / 0x100 / 16 == v / 0x1000 && v / 0x100 >= 16 && v / 0x100 < 0x100) by (
            nonlinear_arith)
                requires
                    0x1000 <= v < 0x1_0000,
            ;
            assert(hex_chars(v / 0x100) == hex_chars(v / 0x1000).push(digit16((v / 0x100) % 16)));
            assert(v / 0x1000 < 16) by (nonlinear_arith)
                requires
                    v < 0x1_0000,
            ;
            assert(hex_chars(v / 0x1000) == seq![digit16(v / 0x1000)]);
        } else if v >= 0x100 {
            assert(v / 0x100 < 16) by (nonlinear_arith)
                requires
                    v < 0x1000,
            ;
            assert(hex_chars(v / 0x100) == seq![digit16(v / 0x100)]);
        }
        if v >= 16 && v < 0x100 {
            assert(v / 16 < 16) by (nonlinear_arith)
                requires
                    16 <= v < 0x100,
            ;
            assert(hex_chars(v / 16) == seq![digit16(v / 16)]);
        }
        assert(s@ =~= old(s)@ + hex_chars(v));
    }
}

/// The dotted-decimal form of a v4 address held in the low 32 bits.
pub open spec fn ipv4_chars(b: u128) -> Seq<char>
    recommends
        b < 0x1_0000_0000u128,
{
    dec_chars(((b >> 24u128) & 0xff) as int) + seq!['.'] + dec_chars(((b >> 16u128) & 0xff) as int)
        + seq!['.'] + dec_chars(((b >> 8u128) & 0xff) as int) + seq!['.'] + dec_chars(
        (b & 0xff) as int,
    )
}

/// The textual form of a v4 address.
pub fn ipv4_text(b: u128) -> (r: String)
    requires
        b < 0x1_0000_0000u128,
    ensures
        r@ == ipv4_chars(b),
{
    proof {
        reveal_strlit(".");
        assert(((b >> 24u128) & 0xff) < 256 && ((b >> 16u128) & 0xff) < 256 && ((b >> 8u128) & 0xff)
            < 256 && (b & 0xff) < 256) by (bit_vector);
    }
    let mut s = String::new();
    push_dec_u8(&mut s, ((b >> 24u128) & 0xff) as u8);
    s.append(".");
    push_dec_u8(&mut s, ((b >> 16u128) & 0xff) as u8);
    s.append(".");
    push_dec_u8(&mut s, ((b >> 8u128) & 0xff) as u8);
    s.append(".");
    push_dec_u8(&mut s, (b & 0xff) as u8);
    proof {
        assert("."@ =~= seq!['.']);
        assert(s@ =~= ipv4_chars(b));
    }
    s
}

/// The `i`-th 16-bit group of a v6 address, counting from the left.
pub open spec fn seg(b: u128, i: int) -> u16
    recommends
        0 <= i < 8,
{
    ((b >> (((7 - i) * 16) as u128)) & 0xffff) as u16
}

/// The eight 16-bit groups of a v6 address, left to right.
pub open spec fn segs(b: u128) -> Seq<u16> {
    Seq::new(8, |i: int| seg(b, i))
}

/// The length of the run of zero groups that starts at `i`.
pub open spec fn run_len_at(s: Seq<u16>, i: int) -> int
    decreases s.len() - i,
{
    if i < 0 || i >= s.len() || s[i] != 0 {
        0
    } else {
        1 + run_len_at(s, i + 1)
    }
}

/// The start of the leftmost longest zero run in `s` at or after `i`.
pub open spec fn best_from(s: Seq<u16>, i: int) -> int
    recommends
        0 <= i < s.len(),
    decreases s.len() - i,
{
    if i + 1 >= s.len() {
        i
    } else {
        let b = best_from(s, i + 1);
        if run_len_at(s, i) >= run_len_at(s, b) {
            i
        } else {
            b
        }
    }
}

/// A zero run never runs past the end of the sequence.
pub proof fn lemma_run_len_bound(s: Seq<u16>, i: int)
    ensures
        run_len_at(s, i) <= s.len() - i || run_len_at(s, i) == 0,
        run_len_at(s, i) >= 0,
    decreases s.len() - i,
{
    if !(i < 0 || i >= s.len() || s[i] != 0) {
        lemma_run_len_bound(s, i + 1);
    }
}

/// The chosen start lies in range.
pub proof fn lemma_best_in_range(s: Seq<u16>, i: int)
    requires
        0 <= i < s.len(),
    ensures
        i <= best_from(s, i) < s.len(),
    decreases s.len() - i,
{
    if i + 1 < s.len() {
        lemma_best_in_range(s, i + 1);
    }
}

/// The hex groups of `s` separated by colons.
pub open spec fn join_colon(s: Seq<u16>) -> Seq<char>
    decreases s.len(),
{
    if s.len() == 0 {
        Seq::empty()
    } else if s.len() == 1 {
        hex_chars(s[0] as int)
    } else {
        join_colon(s.drop_last()) + seq![':'] + hex_chars(s.last() as int)
    }
}

/// The textual form of a v6 address: the mixed form for a v4-mapped
/// address, otherwise hex groups with the leftmost longest run of at least
/// two zero groups folded to `::`.
pub open spec fn ipv6_chars(b: u128) -> Seq<char> {
    if b >> 32u128 == 0xffff {
        seq![':', ':', 'f', 'f', 'f', 'f', ':'] + ipv4_chars(b & 0xffff_ffffu128)
    } else {
        let s = segs(b);
        let st = best_from(s, 0);
        let rl = run_len_at(s, st);
        if rl > 1 {
            join_colon(s.take(st)) + seq![':', ':'] + join_colon(s.skip(st + rl))
        } else {
            join_colon(s)
        }
    }
}

/// The groups of `sv` from `from` to `to` (exclusive), joined by colons.
fn join_hex(sv: &Vec<u16>, from: usize, to: usize) -> (r: String)
    requires
        from <= to <= sv@.len(),
    ensures
        r@ == join_colon(sv@.subrange(from as int, to as int)),
{
    proof {
        reveal_strlit(":");
    }
    let mut out = String::new();
    let mut i: usize = from;
    proof {
        assert(sv@.subrange(from as int, from as int) =~= Seq::<u16>::empty());
    }
    while i < to
        invariant
            from <= i <= to <= sv@.len(),
            out@ == join_colon(sv@.subrange(from as int, i as int)),
            ":"@ == seq![':'],
        decreases to - i,
    {
        if i > from {
            out.append(":");
        }
        push_hex_u16(&mut out, sv[i]);
        proof {
            let sub1 = sv@.subrange(from as int, i + 1);
            assert(sub1.drop_last() =~= sv@.subrange(from as int, i as int));
            assert(sub1.last() == sv@[i as int]);
            if i == from {
                assert(sub1.len() == 1);
                assert(sub1[0] == sv@[i as int]);
                assert(out@ =~= join_colon(sub1));
            } else {
                assert(out@ =~= join_colon(sub1));
            }
        }
        i += 1;
    }
    out
}

/// The textual form of a v6 address.
pub fn ipv6_text(b: u128) -> (r: String)
    ensures
        r@ == ipv6_chars(b),
{
    if (b >> 32u128) == 0xffff {
        proof {
            reveal_strlit("::ffff:");
            assert("::ffff:"@ =~= seq![':', ':', 'f', 'f', 'f', 'f', ':']);
            assert((b & 0xffff_ffffu128) < 0x1_0000_0000u128) by (bit_vector);
        }
        let mut s = String::from_str("::ffff:");
        let t = ipv4_text(b & 0xffff_ffffu128);
        s.append(t.as_str());
        proof {
            assert(s@ =~= ipv6_chars(b));
        }
        s
    } else {
        let ghost gs = segs(b);
        let mut sv: Vec<u16> = Vec::new();
        let mut k: usize = 0;
        while k < 8
            invariant
                k <= 8,
                sv@.len() == k as int,
                forall|j: int| 0 <= j < k as int ==> sv@[j] == seg(b, j),
            decreases 8 - k,
        {
            let sh: u128 = ((7 - k) as u128) * 16;
            let v: u16 = ((b >> sh) & 0xffff) as u16;
            proof {
                assert(((b >> sh) & 0xffff) < 0x1_0000) by (bit_vector);
            }
            sv.push(v);
            k += 1;
        }
        proof {
            assert(sv@ =~= gs);
        }
        let mut best: usize = 7;
        let mut best_run: u8 = if sv[7] == 0 {
            1
        } else {
            0
        };
        let mut run_next: u8 = best_run;
        let mut i: usize = 7;
        proof {
            assert(run_len_at(gs, 8) == 0);
        }
        while i > 0
            invariant
                sv@ == gs,
                gs.len() == 8,
                i <= 7,
                best <= 7,
                best as int == best_from(gs, i as int),
                best_run as int == run_len_at(gs, best as int),
                run_next as int == run_len_at(gs, i as int),
                run_next as int <= 8 - i as int,
            decreases i,
        {
            i -= 1;
            let run_i: u8 = if sv[i] == 0 {
                1 + run_next
            } else {
                0
            };
            if run_i >= best_run {
                best = i;
                best_run = run_i;
            }
            run_next = run_i;
        }
        proof {
            lemma_best_in_range(gs, 0);
            lemma_run_len_bound(gs, best as int);
        }
        if best_run > 1 {
            let mut out = join_hex(&sv, 0, best);
            proof {
                reveal_strlit("::");
                assert("::"@ =~= seq![':', ':']);
                assert(gs.take(best as int) =~= sv@.subrange(0, best as int));
            }
            out.append("::");
            let rest = join_hex(&sv, best + (best_run as usize), 8);
            out.append(rest.as_str());
            proof {
                assert(gs.skip(best as int + run_len_at(gs, best as int)) =~= sv@.subrange(
                    best as int + best_run as int,
                    8,
                ));
                assert(out@ =~= ipv6_chars(b));
            }
            out
        } else {
            let out = join_hex(&sv, 0, 8);
            proof {
                assert(gs =~= sv@.subrange(0, 8));
                assert(out@ =~= ipv6_chars(b));
            }
            out
        }
    }
}

/// The textual form of an address of either family.
pub open spec fn addr_chars(a: IpAddress) -> Seq<char>
    recommends
        a.wf(),
{
    if a.v6 {
        ipv6_chars(a.bits)
    } else {
        ipv4_chars(a.bits)
    }
}

impl IpAddress {
    /// The textual form of the address, as the plain format prints it.
    pub fn text(&self) -> (r: String)
        requires
            self.wf(),
        ensures
            r@ == addr_chars(*self),
    {
        if self.v6 {
            ipv6_text(self.bits)
        } else {
            ipv4_text(self.bits)
        }
    }
}

/// The textual form of an address between double quotes.
pub open spec fn quoted_chars(a: IpAddress) -> Seq<char>
    recommends
        a.wf(),
{
    seq!['"'] + addr_chars(a) + seq!['"']
}

/// The CSV header line, a quoted `ips`.
pub fn csv_header() -> (r: String)
    ensures
        r@ == seq!['"', 'i', 'p', 's', '"'],
{
    proof {
        reveal_strlit("\"ips\"");
        assert("\"ips\""@ =~= seq!['"', 'i', 'p', 's', '"']);
    }
    String::from_str("\"ips\"")
}

/// One quoted address, as a CSV line or a JSON element holds it.
pub fn quoted_line(a: &IpAddress) -> (r: String)
    requires
        a.wf(),
    ensures
        r@ == quoted_chars(*a),
{
    proof {
        reveal_strlit("\"");
        assert("\""@ =~= seq!['"']);
    }
    let mut s = String::from_str("\"");
    let t = a.text();
    s.append(t.as_str());
    s.append("\"");
    proof {
        assert(s@ =~= quoted_chars(*a));
    }
    s
}

/// One JSON element: the quoted address, with a trailing comma exactly
/// when another element follows.
pub fn json_item(a: &IpAddress, has_next: bool) -> (r: String)
    requires
        a.wf(),
    ensures
        r@ == quoted_chars(*a) + (if has_next {
            seq![',']
        } else {
            Seq::<char>::empty()
        }),
{
    proof {
        reveal_strlit(",");
        assert(","@ =~= seq![',']);
    }
    let mut s = quoted_line(a);
    if has_next {
        s.append(",");
    }
    proof {
        assert(s@ =~= quoted_chars(*a) + (if has_next {
            seq![',']
        } else {
            Seq::<char>::empty()
        }));
    }
    s
}

/// The inside of the JSON list: quoted addresses joined by commas.
pub open spec fn json_body_chars(s: Seq<IpAddress>) -> Seq<char>
    decreases s.len(),
{
    if s.len() == 0 {
        Seq::empty()
    } else if s.len() == 1 {
        quoted_chars(s[0])
    } else {
        json_body_chars(s.drop_last()) + seq![','] + quoted_chars(s.last())
    }
}

/// The JSON form of a sequence of addresses: the comma-joined quoted
/// addresses between brackets, with no trailing comma.
pub open spec fn json_chars(s: Seq<IpAddress>) -> Seq<char> {
    seq!['['] + json_body_chars(s) + seq![']']
}

/// The CSV form: the header line, then one quoted address per line.
pub open spec fn csv_chars(s: Seq<IpAddress>) -> Seq<char>
    decreases s.len(),
{
    if s.len() == 0 {
        seq!['"', 'i', 'p', 's', '"', '\n']
    } else {
        csv_chars(s.drop_last()) + quoted_chars(s.last()) + seq!['\n']
    }
}

/// The plain form: one unquoted address per line.
pub open spec fn plain_chars(s: Seq<IpAddress>) -> Seq<char>
    decreases s.len(),
{
    if s.len() == 0 {
        Seq::empty()
    } else {
        plain_chars(s.drop_last()) + addr_chars(s.last()) + seq!['\n']
    }
}

/// Renders a bounded sequence of addresses as one JSON line.
pub fn render_json(addrs: &Vec<IpAddress>) -> (r: String)
    requires
        forall|i: int| 0 <= i < addrs@.len() ==> addrs@[i].wf(),
    ensures
        r@ == json_chars(addrs@),
{
    proof {
        reveal_strlit("[");
        reveal_strlit("]");
        assert("["@ =~= seq!['[']);
        assert("]"@ =~= seq![']']);
    }
    let mut s = String::from_str("[");
    let mut i: usize = 0;
    while i < addrs.len()
        invariant
            forall|j: int| 0 <= j < addrs@.len() ==> addrs@[j].wf(),
            i <= addrs@.len(),
            s@ == seq!['['] + json_body_chars(addrs@.take(i as int)) + (if 0 < i < addrs@.len() {
                seq![',']
            } else {
                Seq::<char>::empty()
            }),
        decreases addrs@.len() - i,
    {
        let more = i + 1 < addrs.len();
        let t = json_item(&addrs[i], more);
        s.append(t.as_str());
        proof {
            let sub1 = addrs@.take(i + 1);
            assert(sub1.drop_last() =~= addrs@.take(i as int));
            assert(sub1.last() == addrs@[i as int]);
            if i > 0 {
                lemma_json_body_comma(addrs@.take(i as int));
                assert(sub1 == addrs@.take(i as int).push(addrs@[i as int]));
            }
            assert(s@ =~= seq!['['] + json_body_chars(sub1) + (if i + 1 < addrs@.len() {
                seq![',']
            } else {
                Seq::<char>::empty()
            }));
        }
        i += 1;
    }
    s.append("]");
    proof {
        assert(addrs@.take(addrs@.len() as int) =~= addrs@);
        assert(s@ =~= json_chars(addrs@));
    }
    s
}

/// A nonempty JSON body followed by a comma and one more element is the
/// body of the longer sequence.
proof fn lemma_json_body_comma(s: Seq<IpAddress>)
    requires
        s.len() >= 1,
    ensures
        forall|a: IpAddress|
            json_body_chars(#[trigger] s.push(a)) == json_body_chars(s) + seq![','] + quoted_chars(
                a,
            ),
{
    assert forall|a: IpAddress|
        json_body_chars(#[trigger] s.push(a)) == json_body_chars(s) + seq![','] + quoted_chars(
            a,
        ) by {
        let t = s.push(a);
        assert(t.drop_last() =~= s);
        assert(t.last() == a);
    }
}

/// Renders a bounded sequence of addresses as CSV lines separated by
/// newlines, header first.
pub fn render_csv(addrs: &Vec<IpAddress>) -> (r: String)
    requires
        forall|i: int| 0 <= i < addrs@.len() ==> addrs@[i].wf(),
    ensures
        r@ == csv_chars(addrs@),
{
    proof {
        reveal_strlit("\n");
        assert("\n"@ =~= seq!['\n']);
    }
    let mut s = csv_header();
    s.append("\n");
    let mut i: usize = 0;
    while i < addrs.len()
        invariant
            forall|j: int| 0 <= j < addrs@.len() ==> addrs@[j].wf(),
            i <= addrs@.len(),
            s@ == csv_chars(addrs@.take(i as int)),
            "\n"@ == seq!['\n'],
        decreases addrs@.len() - i,
    {
        let t = quoted_line(&addrs[i]);
        s.append(t.as_str());
        s.append("\n");
        proof {
            let sub1 = addrs@.take(i + 1);
            assert(sub1.drop_last() =~= addrs@.take(i as int));
            assert(sub1.last() == addrs@[i as int]);
            assert(s@ =~= csv_chars(sub1));
        }
        i += 1;
    }
    proof {
        assert(addrs@.take(addrs@.len() as int) =~= addrs@);
    }
    s
}

/// Renders a bounded sequence of addresses as plain lines separated by
/// newlines.
pub fn render_plain(addrs: &Vec<IpAddress>) -> (r: String)
    requires
        forall|i: int| 0 <= i < addrs@.len() ==> addrs@[i].wf(),
    ensures
        r@ == plain_chars(addrs@),
{
    proof {
        reveal_strlit("\n");
        assert("\n"@ =~= seq!['\n']);
    }
    let mut s = String::new();
    let mut i: usize = 0;
    while i < addrs.len()
        invariant
            forall|j: int| 0 <= j < addrs@.len() ==> addrs@[j].wf(),
            i <= addrs@.len(),
            s@ == plain_chars(addrs@.take(i as int)),
            "\n"@ == seq!['\n'],
        decreases addrs@.len() - i,
    {
        let t = addrs[i].text();
        s.append(t.as_str());
        s.append("\n");
        proof {
            let sub1 = addrs@.take(i + 1);
            assert(sub1.drop_last() =~= addrs@.take(i as int));
            assert(sub1.last() == addrs@[i as int]);
            assert(s@ =~= plain_chars(sub1));
        }
        i += 1;
    }
    proof {
        assert(addrs@.take(addrs@.len() as int) =~= addrs@);
    }
    s
}

/// The JSON form of an empty sequence is exactly the two brackets.
pub proof fn lemma_json_empty()
    ensures
        json_chars(Seq::<IpAddress>::empty()) == seq!['[', ']'],
{
    assert(json_chars(Seq::<IpAddress>::empty()) =~= seq!['[', ']']);
}

/// The JSON form of a one-element sequence is the quoted address between
/// brackets, with no comma anywhere.
pub proof fn lemma_json_single(a: IpAddress)
    ensures
        json_chars(seq![a]) == seq!['['] + seq!['"'] + addr_chars(a) + seq!['"'] + seq![']'],
{
    assert(json_chars(seq![a]) =~= seq!['['] + seq!['"'] + addr_chars(a) + seq!['"'] + seq![']']);
}

} // verus!
