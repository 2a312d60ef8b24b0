//! Captured Play packets replayed as the initial burst: their file names
//! (`play_pkt_N_…id0xHH.bin`) and which of them are sent.
use vstd::prelude::*;
use vstd::string::StringSliceAdditionalSpecFns;

verus! {

/// The first capture number that is replayed.
pub const FIRST_REPLAYED: u32 = 35;

/// How many captures are replayed.
pub const REPLAYED: usize = 213;

/// The first index of byte `c` in `s`.
pub open spec fn find_byte(s: Seq<u8>, c: u8) -> Option<int>
    decreases s.len(),
{
    if s.len() == 0 {
        None
    } else if s[0] == c {
        Some(0)
    } else {
        match find_byte(s.drop_first(), c) {
            Some(i) => Some(i + 1),
            None => None,
        }
    }
}

proof fn lemma_find_byte_bound(s: Seq<u8>, c: u8)
    ensures
        find_byte(s, c) matches Some(i) ==> 0 <= i < s.len() && s[i] == c,
    decreases s.len(),
{
    if s.len() > 0 && s[0] != c {
        lemma_find_byte_bound(s.drop_first(), c);
    }
}

proof fn lemma_find_seq_bound(s: Seq<u8>, p: Seq<u8>)
    ensures
        find_seq(s, p) matches Some(i) ==> 0 <= i && i + p.len() <= s.len(),
    decreases s.len(),
{
    if s.len() >= p.len() && s.take(p.len() as int) != p && s.len() > 0 {
        lemma_find_seq_bound(s.drop_first(), p);
    }
}

/// The first index at which `p` occurs in `s`.
pub open spec fn find_seq(s: Seq<u8>, p: Seq<u8>) -> Option<int>
    decreases s.len(),
{
    if s.len() < p.len() {
        None
    } else if s.take(p.len() as int) == p {
        Some(0)
    } else if s.len() == 0 {
        None
    } else {
        match find_seq(s.drop_first(), p) {
            Some(i) => Some(i + 1),
            None => None,
        }
    }
}

/// The value of a decimal digit, or `None`.
pub open spec fn dec_digit(c: u8) -> Option<int> {
    if 48 <= c <= 57 { Some(c - 48) } else { None }
}

/// The value of a hexadecimal digit (either case), or `None`.
pub open spec fn hex_digit(c: u8) -> Option<int> {
    if 48 <= c <= 57 {
        Some(c - 48)
    } else if 97 <= c <= 102 {
        Some(c - 87)
    } else if 65 <= c <= 70 {
        Some(c - 55)
    } else {
        None
    }
}

/// The value of a run of digits in base 10 (`hex` false) or 16, or `None`
/// where a byte is not a digit.
pub open spec fn digits_value(s: Seq<u8>, hex: bool) -> Option<int>
    decreases s.len(),
{
    if s.len() == 0 {
        Some(0)
    } else {
        let d = if hex { hex_digit(s.last()) } else { dec_digit(s.last()) };
        match (digits_value(s.drop_last(), hex), d) {
            (Some(v), Some(d)) => Some(v * (if hex { 16int } else { 10int }) + d),
            _ => None,
        }
    }
}

/// `u32::from_str` on ASCII digits: an optional `+`, then at least one
/// decimal digit, the value at most `u32::MAX`.
pub open spec fn spec_parse_u32(s: Seq<u8>) -> Option<u32> {
    let d = if s.len() > 0 && s[0] == 43 { s.drop_first() } else { s };
    if d.len() == 0 {
        None
    } else {
        match digits_value(d, false) {
            Some(v) => if v <= u32::MAX { Some(v as u32) } else { None },
            None => None,
        }
    }
}

/// `i32::from_str_radix(_, 16)`: an optional `+` or `-`, then at least one
/// hexadecimal digit, the signed value in the range of `i32`.
pub open spec fn spec_parse_i32_hex(s: Seq<u8>) -> Option<i32> {
    let neg = s.len() > 0 && s[0] == 45;
    let d = if s.len() > 0 && (s[0] == 43 || s[0] == 45) { s.drop_first() } else { s };
    if d.len() == 0 {
        None
    } else {
        match digits_value(d, true) {
            Some(v) => {
                let x = if neg { -v } else { v };
                if i32::MIN <= x <= i32::MAX { Some(x as i32) } else { None }
            },
            None => None,
        }
    }
}

/// The capture number and packet ID that a file name gives: it starts
/// `play_pkt_` and ends `.bin`; after the prefix, the text up to the first
/// `_` is the number (at least 35), and the text between the first `id0x`
/// and the next `.` is the packet ID in hexadecimal.
pub open spec fn spec_template_name(b: Seq<u8>) -> Option<(u32, i32)> {
    let prefix = seq![112u8, 108, 97, 121, 95, 112, 107, 116, 95];
    let suffix = seq![46u8, 98, 105, 110];
    if b.len() < 9 || b.take(9) != prefix || b.len() < 4 || b.skip(b.len() - 4) != suffix {
        None
    } else {
        let rest = b.skip(9);
        match find_byte(rest, 95) {
            None => None,
            Some(u) => match spec_parse_u32(rest.take(u)) {
                None => None,
                Some(n) => if n < FIRST_REPLAYED {
                    None
                } else {
                    match find_seq(rest, seq![105u8, 100, 48, 120]) {
                        None => None,
                        Some(k) => {
                            let id_rest = rest.skip(k + 4);
                            match find_byte(id_rest, 46) {
                                None => None,
                                Some(d) => match spec_parse_i32_hex(id_rest.take(d)) {
                                    None => None,
                                    Some(pid) => Some((n, pid)),
                                },
                            }
                        },
                    }
                },
            },
        }
    }
}

/// The first index of byte `c` in `b` from `from` on.
fn find_byte_from(b: &[u8], c: u8, from: usize) -> (r: Option<usize>)
    requires
        from <= b@.len(),
    ensures
        match find_byte(b@.skip(from as int), c) {
            Some(i) => 0 <= i && from + i < b@.len() && r == Some((from + i) as usize),
            None => r is None,
        },
{
    proof {
        lemma_find_byte_bound(b@.skip(from as int), c);
    }
    let mut i = from;
    while i < b.len()
        invariant
            from <= i <= b@.len(),
            find_byte(b@.skip(from as int), c) == match find_byte(b@.skip(i as int), c) {
                Some(j) => Some(j + (i - from)),
                None => None,
            },
        decreases b@.len() - i,
    {
        proof {
            assert(b@.skip(i as int).drop_first() =~= b@.skip(i + 1));
        }
        if b[i] == c {
            return Some(i);
        }
        i += 1;
    }
    None
}

/// The first index of `id0x` in `b` from `from` on.
fn find_id_marker(b: &[u8], from: usize) -> (r: Option<usize>)
    requires
        from <= b@.len(),
    ensures
        match find_seq(b@.skip(from as int), seq![105u8, 100, 48, 120]) {
            Some(i) => 0 <= i && from + i + 4 <= b@.len() && r == Some((from + i) as usize),
            None => r is None,
        },
{
    let ghost p = seq![105u8, 100, 48, 120];
    proof {
        lemma_find_seq_bound(b@.skip(from as int), p);
    }
    let mut i = from;
    while b.len() - i >= 4
        invariant
            from <= i <= b@.len(),
            p == seq![105u8, 100, 48, 120],
            find_seq(b@.skip(from as int), p) == match find_seq(b@.skip(i as int), p) {
                Some(j) => Some(j + (i - from)),
                None => None,
            },
        decreases b@.len() - i,
    {
        proof {
            assert(b@.skip(i as int).drop_first() =~= b@.skip(i + 1));
        }
        if b[i] == 105 && b[i + 1] == 100 && b[i + 2] == 48 && b[i + 3] == 120 {
            proof {
                let t = b@.skip(i as int).take(4);
                assert(t[0] == b@[i as int] && t[1] == b@[i + 1] && t[2] == b@[i + 2] && t[3] == b@[i + 3]);
                assert(p[0] == 105u8 && p[1] == 100u8 && p[2] == 48u8 && p[3] == 120u8);
                assert(t =~= p);
            }
            return Some(i);
        }
        proof {
            let t = b@.skip(i as int).take(4);
            assert(p[0] == 105u8 && p[1] == 100u8 && p[2] == 48u8 && p[3] == 120u8);
            if t == p {
                assert(t[0] == b@[i as int] && t[1] == b@[i + 1] && t[2] == b@[i + 2] && t[3] == b@[i + 3]);
            }
        }
        i += 1;
    }
    None
}

/// The value of the digits `b[from..to]`, counted up to `cap`: `None` where a
/// byte is not a digit.
fn digits_capped(b: &[u8], from: usize, to: usize, hex: bool, cap_at: u64) -> (r: Option<u64>)
    requires
        from <= to <= b@.len(),
        cap_at <= 0x1_0000_0000,
    ensures
        match digits_value(b@.subrange(from as int, to as int), hex) {
            Some(v) => r == Some((if v < cap_at { v } else { cap_at as int }) as u64),
            None => r is None,
        },
        digits_value(b@.subrange(from as int, to as int), hex) matches Some(v) ==> v >= 0,
{
    let mut acc: u64 = 0;
    let mut i = from;
    proof {
        assert(b@.subrange(from as int, from as int) =~= Seq::<u8>::empty());
    }
    while i < to
        invariant
            from <= i <= to <= b@.len(),
            cap_at <= 0x1_0000_0000,
            acc <= cap_at,
            match digits_value(b@.subrange(from as int, i as int), hex) {
                Some(v) => v >= 0 && acc == (if v < cap_at { v } else { cap_at as int }),
                None => false,
            },
        decreases to - i,
    {
        let c = b[i];
        let d: u64 = if 48 <= c && c <= 57 {
            (c - 48) as u64
        } else if hex && 97 <= c && c <= 102 {
            (c - 87) as u64
        } else if hex && 65 <= c && c <= 70 {
            (c - 55) as u64
        } else {
            proof {
                let s = b@.subrange(from as int, i + 1);
                assert(s.drop_last() =~= b@.subrange(from as int, i as int));
                assert(s.last() == c);
                lemma_digits_none_extends(b@, from as int, i + 1, to as int, hex);
            }
            return None;
        };
        let base: u64 = if hex { 16 } else { 10 };
        let next = acc * base + d;
        acc = if next < cap_at { next } else { cap_at };
        proof {
            let s = b@.subrange(from as int, i + 1);
            assert(s.drop_last() =~= b@.subrange(from as int, i as int));
            assert(s.last() == c);
        }
        i += 1;
    }
    Some(acc)
}

/// A non-digit makes every longer run of digits fail too.
proof fn lemma_digits_none_extends(s: Seq<u8>, from: int, i: int, to: int, hex: bool)
    requires
        0 <= from <= i <= to <= s.len(),
        digits_value(s.subrange(from, i), hex) is None,
    ensures
        digits_value(s.subrange(from, to), hex) is None,
    decreases to - i,
{
    if i < to {
        assert(s.subrange(from, i + 1).drop_last() =~= s.subrange(from, i));
        lemma_digits_none_extends(s, from, i + 1, to, hex);
    }
}

/// `u32::from_str` on `b[from..to]`.
fn parse_u32(b: &[u8], from: usize, to: usize) -> (r: Option<u32>)
    requires
        from <= to <= b@.len(),
    ensures
        r == spec_parse_u32(b@.subrange(from as int, to as int)),
{
    let ghost s = b@.subrange(from as int, to as int);
    let start = if from < to && b[from] == 43 { from + 1 } else { from };
    proof {
        if from < to {
            assert(s[0] == b@[from as int]);
        }
        if from < to && b@[from as int] == 43 {
            assert(s.drop_first() =~= b@.subrange(start as int, to as int));
        } else {
            assert(s =~= b@.subrange(start as int, to as int));
        }
    }
    if start == to {
        return None;
    }
    match digits_capped(b, start, to, false, 0x1_0000_0000) {
        Some(v) => if v <= 0xffff_ffff { Some(v as u32) } else { None },
        None => None,
    }
}

/// `i32::from_str_radix(_, 16)` on `b[from..to]`.
fn parse_i32_hex(b: &[u8], from: usize, to: usize) -> (r: Option<i32>)
    requires
        from <= to <= b@.len(),
    ensures
        r == spec_parse_i32_hex(b@.subrange(from as int, to as int)),
{
    let ghost s = b@.subrange(from as int, to as int);
    let neg = from < to && b[from] == 45;
    let signed = from < to && (b[from] == 43 || b[from] == 45);
    let start = if signed { from + 1 } else { from };
    proof {
        if from < to {
            assert(s[0] == b@[from as int]);
        }
        if signed {
            assert(s.drop_first() =~= b@.subrange(start as int, to as int));
        } else {
            assert(s =~= b@.subrange(start as int, to as int));
        }
    }
    if start == to {
        return None;
    }
    match digits_capped(b, start, to, true, 0x8000_0001) {
        Some(v) => {
            if neg {
                if v <= 0x8000_0000 {
                    Some((0i64 - v as i64) as i32)
                } else {
                    None
                }
            } else if v <= 0x7fff_ffff {
                Some(v as i32)
            } else {
                None
            }
        },
        None => None,
    }
}

/// The capture number and packet ID in a capture's file name, if it names
/// one that is replayed.
pub fn template_name(name: &str) -> (r: Option<(u32, i32)>)
    ensures
        r == spec_template_name(name.spec_bytes()),
{
    let b = name.as_bytes();
    let n = b.len();
    let ghost bs = b@;
    let ghost prefix = seq![112u8, 108, 97, 121, 95, 112, 107, 116, 95];
    let ghost suffix = seq![46u8, 98, 105, 110];
    if n < 9 || n < 4 {
        return None;
    }
    if !(b[0] == 112 && b[1] == 108 && b[2] == 97 && b[3] == 121 && b[4] == 95 && b[5] == 112 && b[6] == 107
        && b[7] == 116 && b[8] == 95) {
        proof {
            let t = bs.take(9);
            if t == prefix {
                assert(t[0] == bs[0] && t[1] == bs[1] && t[2] == bs[2] && t[3] == bs[3] && t[4] == bs[4]);
                assert(t[5] == bs[5] && t[6] == bs[6] && t[7] == bs[7] && t[8] == bs[8]);
            }
        }
        return None;
    }
    proof {
        assert(bs.take(9) =~= prefix);
    }
    if !(b[n - 4] == 46 && b[n - 3] == 98 && b[n - 2] == 105 && b[n - 1] == 110) {
        proof {
            let t = bs.skip(n - 4);
            if t == suffix {
                assert(t[0] == bs[n - 4] && t[1] == bs[n - 3] && t[2] == bs[n - 2] && t[3] == bs[n - 1]);
            }
        }
        return None;
    }
    proof {
        assert(bs.skip(n - 4) =~= suffix);
        assert(bs.skip(9).skip(0) =~= bs.skip(9));
    }
    let ghost rest = bs.skip(9);
    let u = match find_byte_from(b, 95, 9) {
        Some(u) => u,
        None => {
            return None;
        },
    };
    proof {
        assert(rest.take(u - 9) =~= bs.subrange(9, u as int));
        assert(find_byte(rest, 95) == Some(u - 9));
    }
    let num = match parse_u32(b, 9, u) {
        Some(v) => v,
        None => {
            return None;
        },
    };
    if num < FIRST_REPLAYED {
        return None;
    }
    let k = match find_id_marker(b, 9) {
        Some(k) => k,
        None => {
            return None;
        },
    };
    proof {
        assert(rest.skip(k - 9 + 4) =~= bs.skip(k + 4));
    }
    let d = match find_byte_from(b, 46, k + 4) {
        Some(d) => d,
        None => {
            return None;
        },
    };
    proof {
        assert(bs.skip(k + 4).take(d - (k + 4)) =~= bs.subrange(k + 4, d as int));
    }
    match parse_i32_hex(b, k + 4, d) {
        Some(pid) => Some((num, pid)),
        None => None,
    }
}

// ── Selection ────────────────────────────────────────────────

/// The least capture number of `f` that is at least `lo`.
pub open spec fn min_key_from(f: Seq<(u32, i32, Seq<u8>)>, lo: int) -> Option<u32>
    decreases f.len(),
{
    if f.len() == 0 {
        None
    } else {
        let k = f.last().0;
        let rest = min_key_from(f.drop_last(), lo);
        if k < lo {
            rest
        } else {
            match rest {
                None => Some(k),
                Some(m) => Some(if k < m { k } else { m }),
            }
        }
    }
}

/// The packet ID and body of the last capture of `f` numbered `k`.
pub open spec fn last_with(f: Seq<(u32, i32, Seq<u8>)>, k: u32) -> (i32, Seq<u8>)
    decreases f.len(),
{
    if f.len() == 0 {
        (0, Seq::empty())
    } else if f.last().0 == k {
        (f.last().1, f.last().2)
    } else {
        last_with(f.drop_last(), k)
    }
}

/// Up to `count` captures numbered from `lo` on, in ascending order of their
/// numbers, one per number: the last found with it.
pub open spec fn select_from(f: Seq<(u32, i32, Seq<u8>)>, lo: int, count: nat) -> Seq<(i32, Seq<u8>)>
    decreases count,
{
    if count == 0 {
        Seq::empty()
    } else {
        match min_key_from(f, lo) {
            None => Seq::empty(),
            Some(k) => seq![last_with(f, k)] + select_from(f, k + 1, (count - 1) as nat),
        }
    }
}

/// The captures replayed: by ascending number, the last found of each
/// number, at most 213 of them.
pub open spec fn spec_select(f: Seq<(u32, i32, Seq<u8>)>) -> Seq<(i32, Seq<u8>)> {
    select_from(f, 0, REPLAYED as nat)
}

/// A capture list as plain values.
pub open spec fn captures_view(found: Seq<(u32, i32, Vec<u8>)>) -> Seq<(u32, i32, Seq<u8>)> {
    found.map_values(|e: (u32, i32, Vec<u8>)| (e.0, e.1, e.2@))
}

/// The least number at least `lo` and the position of the last capture with it.
fn min_key_index(found: &Vec<(u32, i32, Vec<u8>)>, lo: u64) -> (r: Option<(u32, usize)>)
    ensures
        ({
            let f = captures_view(found@);
            match min_key_from(f, lo as int) {
                None => r is None,
                Some(k) => r matches Some((k2, i)) && k2 == k && i < f.len() && (f[i as int].1, f[i as int].2)
                    == last_with(f, k),
            }
        }),
{
    let ghost f = captures_view(found@);
    let mut best: Option<(u32, usize)> = None;
    let mut i: usize = 0;
    while i < found.len()
        invariant
            i <= found@.len(),
            f == captures_view(found@),
            match min_key_from(f.take(i as int), lo as int) {
                None => best is None,
                Some(k) => best matches Some((k2, j)) && k2 == k && j < i && (f[j as int].1, f[j as int].2)
                    == last_with(f.take(i as int), k),
            },
        decreases found@.len() - i,
    {
        proof {
            assert(f.take(i + 1).drop_last() =~= f.take(i as int));
            assert(f.take(i + 1).last() == f[i as int]);
            assert(f[i as int] == (found@[i as int].0, found@[i as int].1, found@[i as int].2@));
        }
        let k = found[i].0;
        if k as u64 >= lo {
            match best {
                None => {
                    best = Some((k, i));
                },
                Some((m, _)) => {
                    if k <= m {
                        best = Some((k, i));
                    }
                },
            }
        }
        proof {
            let pt = f.take(i as int);
            let pt1 = f.take(i + 1);
            lemma_min_key_at_least(pt, lo as int);
            assert(min_key_from(pt1, lo as int) == {
                let rest = min_key_from(pt, lo as int);
                if (k as int) < lo {
                    rest
                } else {
                    match rest {
                        None => Some(k),
                        Some(m) => Some(if k < m { k } else { m }),
                    }
                }
            });
            match min_key_from(pt1, lo as int) {
                Some(kk) => {
                    if k != kk {
                        lemma_last_with_skip(pt1, kk);
                        assert(last_with(pt1, kk) == last_with(pt, kk));
                    } else {
                        assert(last_with(pt1, kk) == (f[i as int].1, f[i as int].2));
                    }
                },
                None => {},
            }
        }
        i += 1;
    }
    proof {
        assert(f.take(found@.len() as int) =~= f);
    }
    best
}

proof fn lemma_min_key_at_least(f: Seq<(u32, i32, Seq<u8>)>, lo: int)
    ensures
        min_key_from(f, lo) matches Some(m) ==> m >= lo,
    decreases f.len(),
{
    if f.len() > 0 {
        lemma_min_key_at_least(f.drop_last(), lo);
    }
}

proof fn lemma_last_with_skip(f: Seq<(u32, i32, Seq<u8>)>, k: u32)
    requires
        f.len() > 0,
        f.last().0 != k,
    ensures
        last_with(f, k) == last_with(f.drop_last(), k),
{
}

/// A copy of `v`.
fn copy_bytes(v: &Vec<u8>) -> (r: Vec<u8>)
    ensures
        r@ == v@,
{
    let mut out: Vec<u8> = Vec::new();
    let mut i: usize = 0;
    while i < v.len()
        invariant
            i <= v@.len(),
            out@ == v@.take(i as int),
        decreases v@.len() - i,
    {
        out.push(v[i]);
        proof {
            assert(v@.take(i + 1) =~= v@.take(i as int).push(v@[i as int]));
        }
        i += 1;
    }
    proof {
        assert(v@.take(v@.len() as int) =~= v@);
    }
    out
}

/// The captures to replay from those found (number, packet ID, body): by
/// ascending number, the last found of each number, at most 213.
pub fn select_templates(found: Vec<(u32, i32, Vec<u8>)>) -> (r: Vec<(i32, Vec<u8>)>)
    ensures
        r@.map_values(|e: (i32, Vec<u8>)| (e.0, e.1@)) == spec_select(captures_view(found@)),
{
    let ghost f = captures_view(found@);
    let mut out: Vec<(i32, Vec<u8>)> = Vec::new();
    let mut lo: u64 = 0;
    let mut t: usize = 0;
    while t < REPLAYED
        invariant
            t <= REPLAYED,
            f == captures_view(found@),
            lo <= 0x1_0000_0000,
            out@.map_values(|e: (i32, Vec<u8>)| (e.0, e.1@)) + select_from(f, lo as int, (REPLAYED - t) as nat)
                == spec_select(f),
        decreases REPLAYED - t,
    {
        match min_key_index(&found, lo) {
            None => {
                proof {
                    assert(select_from(f, lo as int, (REPLAYED - t) as nat) =~= Seq::<(i32, Seq<u8>)>::empty());
                    assert(out@.map_values(|e: (i32, Vec<u8>)| (e.0, e.1@)) + Seq::<(i32, Seq<u8>)>::empty()
                        =~= out@.map_values(|e: (i32, Vec<u8>)| (e.0, e.1@)));
                }
                return out;
            },
            Some((k, i)) => {
                let body = copy_bytes(&found[i].2);
                let ghost before = out@;
                out.push((found[i].1, body));
                proof {
                    let m = |e: (i32, Vec<u8>)| (e.0, e.1@);
                    assert(out@.map_values(m) =~= before.map_values(m).push((found@[i as int].1, body@)));
                    assert(f[i as int] == (found@[i as int].0, found@[i as int].1, found@[i as int].2@));
                    let rest = select_from(f, k + 1, (REPLAYED - t - 1) as nat);
                    assert(select_from(f, lo as int, (REPLAYED - t) as nat) == seq![last_with(f, k)] + rest);
                    assert(before.map_values(m).push((found@[i as int].1, body@)) + rest =~= before.map_values(m)
                        + (seq![last_with(f, k)] + rest));
                }
                lo = k as u64 + 1;
            },
        }
        t += 1;
    }
    proof {
        assert(select_from(f, lo as int, 0) =~= Seq::<(i32, Seq<u8>)>::empty());
        assert(out@.map_values(|e: (i32, Vec<u8>)| (e.0, e.1@)) + Seq::<(i32, Seq<u8>)>::empty()
            =~= out@.map_values(|e: (i32, Vec<u8>)| (e.0, e.1@)));
    }
    out
}

} // verus!
