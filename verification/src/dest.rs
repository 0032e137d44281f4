//! Destination node IDs as a user types them (`!a1b2c3d4`, `0xa1b2c3d4`,
//! `a1b2c3d4`) and as the neighbour list shows them (`SHORT (!a1b2c3d4)`).
use vstd::prelude::*;
use vstd::string::StrSliceExecFns;
use crate::text::{hex8, hex_digit, hex_digits};

verus! {

/// The value of a hexadecimal digit, either case.
pub open spec fn hex_value(c: char) -> Option<nat> {
    let v = c as nat;
    if 48 <= v <= 57 {
        Some((v - 48) as nat)
    } else if 97 <= v <= 102 {
        Some((v - 87) as nat)
    } else if 65 <= v <= 70 {
        Some((v - 55) as nat)
    } else {
        None
    }
}

/// The value of a run of hex digits (0 for none); `None` if any is not one.
pub open spec fn hex_run_value(cs: Seq<char>) -> Option<nat>
    decreases cs.len(),
{
    if cs.len() == 0 {
        Some(0)
    } else {
        match (hex_run_value(cs.drop_last()), hex_value(cs.last())) {
            (Some(v), Some(d)) => Some(v * 16 + d),
            _ => None,
        }
    }
}

/// What `u32::from_str_radix(cs, 16)` gives: an optional `+`, then at least
/// one hex digit, with a value that fits in 32 bits.
pub open spec fn parse_hex_u32(cs: Seq<char>) -> Option<u32> {
    let digits = if cs.len() > 0 && cs[0] == '+' { cs.drop_first() } else { cs };
    if digits.len() == 0 {
        None
    } else {
        match hex_run_value(digits) {
            Some(v) => if v <= u32::MAX { Some(v as u32) } else { None },
            None => None,
        }
    }
}

/// `cs` without its leading `!` characters.
pub open spec fn strip_bangs(cs: Seq<char>) -> Seq<char>
    decreases cs.len(),
{
    if cs.len() > 0 && cs[0] == '!' {
        strip_bangs(cs.drop_first())
    } else {
        cs
    }
}

/// `cs` without its leading `0x` pairs.
pub open spec fn strip_0x(cs: Seq<char>) -> Seq<char>
    decreases cs.len(),
{
    if cs.len() >= 2 && cs[0] == '0' && cs[1] == 'x' {
        strip_0x(cs.skip(2))
    } else {
        cs
    }
}

/// The node ID a typed destination names: leading `!`s, then leading `0x`
/// pairs, are dropped, and the rest is read as hex.
pub open spec fn dest_input_id(cs: Seq<char>) -> Option<u32> {
    parse_hex_u32(strip_0x(strip_bangs(cs)))
}

/// The first position at or after `from` where `pat` occurs in `cs`.
pub open spec fn find_from(cs: Seq<char>, pat: Seq<char>, from: nat) -> Option<nat>
    decreases cs.len() + 1 - from,
{
    if from + pat.len() > cs.len() {
        None
    } else if cs.subrange(from as int, (from + pat.len()) as int) == pat {
        Some(from)
    } else {
        find_from(cs, pat, from + 1)
    }
}

/// A neighbour-list line read back: the label is what comes before the
/// first ` (!`; the ID is what follows the first `(!` up to the next `(!`
/// (or the end), which must end in `)`, read as hex.
pub open spec fn label_entry(cs: Seq<char>) -> Option<(Seq<char>, u32)> {
    match find_from(cs, seq!['(', '!'], 0) {
        None => None,
        Some(i) => {
            let after = cs.skip((i + 2) as int);
            let piece = match find_from(after, seq!['(', '!'], 0) {
                Some(j) => after.take(j as int),
                None => after,
            };
            if piece.len() == 0 || piece.last() != ')' {
                None
            } else {
                match parse_hex_u32(piece.drop_last()) {
                    None => None,
                    Some(id) => {
                        let label = match find_from(cs, seq![' ', '(', '!'], 0) {
                            Some(k) => cs.take(k as int),
                            None => cs,
                        };
                        Some((label, id))
                    },
                }
            }
        },
    }
}

fn hex_value_exec(c: char) -> (r: Option<u32>)
    ensures
        match hex_value(c) {
            Some(v) => r == Some(v as u32),
            None => r is None,
        },
{
    let v = c as u32;
    if 48 <= v && v <= 57 {
        Some(v - 48)
    } else if 97 <= v && v <= 102 {
        Some(v - 87)
    } else if 65 <= v && v <= 70 {
        Some(v - 55)
    } else {
        None
    }
}

/// Reads the characters of `s` from `from` to `to` as `from_str_radix(_, 16)` does.
fn parse_hex_range(s: &str, from: usize, to: usize) -> (r: Option<u32>)
    requires
        from <= to <= s@.len(),
    ensures
        r == parse_hex_u32(s@.subrange(from as int, to as int)),
{
    let ghost cs = s@.subrange(from as int, to as int);
    let mut start = from;
    if from < to && s.get_char(from) == '+' {
        start = from + 1;
    }
    let ghost digits = s@.subrange(start as int, to as int);
    assert(digits =~= if cs.len() > 0 && cs[0] == '+' { cs.drop_first() } else { cs });
    if start == to {
        return None;
    }
    let mut acc: u64 = 0;
    let mut over = false;
    let mut bad = false;
    let mut i = start;
    while i < to
        invariant
            start <= i <= to <= s@.len(),
            digits == s@.subrange(start as int, to as int),
            !bad ==> hex_run_value(s@.subrange(start as int, i as int)) is Some,
            bad ==> hex_run_value(s@.subrange(start as int, i as int)) is None,
            !bad && !over ==> hex_run_value(s@.subrange(start as int, i as int)) == Some(acc as nat),
            !bad && over ==> hex_run_value(s@.subrange(start as int, i as int))->0 > u32::MAX,
            acc <= u32::MAX,
        decreases to - i,
    {
        let c = s.get_char(i);
        let ghost pre = s@.subrange(start as int, i as int);
        assert(s@.subrange(start as int, i + 1).drop_last() =~= pre);
        assert(s@.subrange(start as int, i + 1).last() == c);
        match hex_value_exec(c) {
            None => {
                bad = true;
            },
            Some(d) => {
                if !over {
                    let next: u64 = acc * 16 + d as u64;
                    if next > 0xFFFF_FFFF {
                        over = true;
                    } else {
                        acc = next;
                    }
                }
            },
        }
        i = i + 1;
    }
    if bad || over {
        None
    } else {
        Some(acc as u32)
    }
}

fn strip_bangs_from(s: &str, from: usize) -> (r: usize)
    requires
        from <= s@.len(),
    ensures
        from <= r <= s@.len(),
        s@.skip(r as int) == strip_bangs(s@.skip(from as int)),
    decreases s@.len() - from,
{
    if from < s.unicode_len() && s.get_char(from) == '!' {
        assert(s@.skip(from as int).drop_first() =~= s@.skip(from + 1));
        strip_bangs_from(s, from + 1)
    } else {
        from
    }
}

fn strip_0x_from(s: &str, from: usize) -> (r: usize)
    requires
        from <= s@.len(),
    ensures
        from <= r <= s@.len(),
        s@.skip(r as int) == strip_0x(s@.skip(from as int)),
    decreases s@.len() - from,
{
    let n = s.unicode_len();
    if n >= 2 && from <= n - 2 && s.get_char(from) == '0' && s.get_char(from + 1) == 'x' {
        assert(s@.skip(from as int).skip(2) =~= s@.skip(from + 2));
        strip_0x_from(s, from + 2)
    } else {
        from
    }
}

/// The node ID a typed destination names (`!a1b2c3d4`, `0xa1b2c3d4`,
/// `a1b2c3d4`); `None` when the rest is not a 32-bit hex number.
pub fn parse_dest_input(s: &str) -> (r: Option<u32>)
    ensures
        r == dest_input_id(s@),
{
    let n = s.unicode_len();
    assert(s@.skip(0) =~= s@);
    let a = strip_bangs_from(s, 0);
    let b = strip_0x_from(s, a);
    assert(s@.skip(b as int) =~= s@.subrange(b as int, n as int));
    parse_hex_range(s, b, n)
}

fn find_in(s: &str, pat: &str, from: usize, to: usize) -> (r: Option<usize>)
    requires
        from <= to <= s@.len(),
    ensures
        match find_from(s@.subrange(0, to as int), pat@, from as nat) {
            Some(k) => r == Some(k as usize),
            None => r is None,
        },
    decreases to - from,
{
    let ghost cs = s@.subrange(0, to as int);
    let m = pat.unicode_len();
    if m > to - from {
        return None;
    }
    assert(s@.subrange(from as int, from as int) =~= pat@.subrange(0, 0));
    let mut j: usize = 0;
    let mut same = true;
    while j < m
        invariant
            from + m <= to <= s@.len(),
            m == pat@.len(),
            j <= m,
            same == (s@.subrange(from as int, from + j) == pat@.subrange(0, j as int)),
        decreases m - j,
    {
        let a = s.get_char(from + j);
        let b = pat.get_char(j);
        proof {
            assert(s@.subrange(from as int, from + j + 1) =~= s@.subrange(from as int, from + j).push(a));
            assert(pat@.subrange(0, j + 1) =~= pat@.subrange(0, j as int).push(b));
            if !same {
                assert(s@.subrange(from as int, from + j) != pat@.subrange(0, j as int));
                if s@.subrange(from as int, from + j + 1) == pat@.subrange(0, j + 1) {
                    assert(s@.subrange(from as int, from + j + 1).drop_last() =~= s@.subrange(from as int, from + j));
                    assert(pat@.subrange(0, j + 1).drop_last() =~= pat@.subrange(0, j as int));
                }
            }
        }
        if a != b {
            proof {
                assert(s@.subrange(from as int, from + j + 1).last() != pat@.subrange(0, j + 1).last());
            }
            same = false;
        }
        j = j + 1;
    }
    assert(pat@.subrange(0, m as int) =~= pat@);
    assert(cs.subrange(from as int, from + m) =~= s@.subrange(from as int, from + m));
    if same {
        Some(from)
    } else {
        find_in(s, pat, from + 1, to)
    }
}

/// Reads a neighbour-list line (`SHORT (!a1b2c3d4)`) back into its label
/// and node ID; `None` when it holds no `(!` followed by hex and `)`.
pub fn parse_neighbour_label(entry: &str) -> (r: Option<(&str, u32)>)
    ensures
        match label_entry(entry@) {
            Some((label, id)) => r matches Some((l, i)) && l@ == label && i == id,
            None => r is None,
        },
{
    let n = entry.unicode_len();
    let open = "(!";
    let open_sp = " (!";
    proof {
        reveal_strlit("(!");
        reveal_strlit(" (!");
        assert(entry@.subrange(0, n as int) =~= entry@);
        assert(open@ =~= seq!['(', '!']);
        assert(open_sp@ =~= seq![' ', '(', '!']);
    }
    let i = match find_in(entry, open, 0, n) {
        Some(i) => i,
        None => return None,
    };
    proof {
        lemma_find_bounds(entry@, seq!['(', '!'], 0);
    }
    let ghost after = entry@.skip(i + 2);
    let ghost pat = seq!['(', '!'];
    // The piece: after the first "(!", up to the next one.
    let next = find_in(entry, open, i + 2, n);
    proof {
        lemma_find_shift(entry@, pat, (i + 2) as nat, (i + 2) as nat);
        lemma_find_bounds(entry@, pat, (i + 2) as nat);
    }
    let end = match next {
        Some(j) => j,
        None => n,
    };
    let ghost piece = entry@.subrange(i + 2, end as int);
    proof {
        match find_from(after, pat, 0) {
            Some(j) => {
                assert(end == j + i + 2);
                assert(piece =~= after.take(j as int));
            },
            None => {
                assert(end == n);
                assert(piece =~= after);
            },
        }
    }
    if end == i + 2 || entry.get_char(end - 1) != ')' {
        return None;
    }
    assert(piece.drop_last() =~= entry@.subrange(i + 2, end - 1));
    let id = match parse_hex_range(entry, i + 2, end - 1) {
        Some(id) => id,
        None => return None,
    };
    let found = find_in(entry, open_sp, 0, n);
    proof {
        lemma_find_bounds(entry@, seq![' ', '(', '!'], 0);
    }
    let k = match found {
        Some(k) => k,
        None => n,
    };
    let label = entry.substring_char(0, k);
    proof {
        match find_from(entry@, seq![' ', '(', '!'], 0) {
            Some(kk) => assert(label@ =~= entry@.take(kk as int)),
            None => assert(label@ =~= entry@),
        }
    }
    Some((label, id))
}

/// A position that `find_from` reports is at or after the start, and `pat`
/// occurs there.
proof fn lemma_find_bounds(cs: Seq<char>, pat: Seq<char>, from: nat)
    ensures
        find_from(cs, pat, from) matches Some(k) ==> from <= k && k + pat.len() <= cs.len()
            && cs.subrange(k as int, (k + pat.len()) as int) == pat,
    decreases cs.len() + 1 - from,
{
    if from + pat.len() <= cs.len() && cs.subrange(from as int, (from + pat.len()) as int) != pat {
        lemma_find_bounds(cs, pat, from + 1);
    }
}

/// Searching `cs` from `base + from` is searching `cs.skip(base)` from
/// `from`, shifted by `base`.
proof fn lemma_find_shift(cs: Seq<char>, pat: Seq<char>, base: nat, from: nat)
    requires
        base <= from,
        base <= cs.len(),
    ensures
        find_from(cs, pat, from) == match find_from(cs.skip(base as int), pat, (from - base) as nat) {
            Some(j) => Some(j + base),
            None => None,
        },
    decreases cs.len() + 1 - from,
{
    let t = cs.skip(base as int);
    if from + pat.len() <= cs.len() {
        assert(cs.subrange(from as int, (from + pat.len()) as int) =~= t.subrange(from - base, from - base + pat.len()));
        lemma_find_shift(cs, pat, base, from + 1);
    }
}

/// Reading back the hex digits of `x` gives `x`, when they have room for it.
proof fn lemma_hex_digits_value(x: nat, n: nat)
    requires
        x < pow16(n),
    ensures
        hex_run_value(hex_digits(x, n)) == Some(x),
    decreases n,
{
    if n > 0 {
        let p = pow16((n - 1) as nat);
        assert(x / 16 < p) by (nonlinear_arith)
            requires
                x < 16 * p,
        ;
        lemma_hex_digits_value(x / 16, (n - 1) as nat);
        let hs = hex_digits(x, n);
        assert(hs.drop_last() == hex_digits(x / 16, (n - 1) as nat));
        let d = x % 16;
        assert(hex_value(hex_digit(d)) == Some(d));
        assert((x / 16) * 16 + x % 16 == x) by (nonlinear_arith);
    } else {
        assert(x == 0);
    }
}

/// `16` to the power `n`.
pub open spec fn pow16(n: nat) -> nat
    decreases n,
{
    if n == 0 {
        1
    } else {
        16 * pow16((n - 1) as nat)
    }
}

proof fn lemma_hex8_value(id: u32)
    ensures
        parse_hex_u32(hex8(id)) == Some(id),
        hex8(id).len() == 8,
        forall|i: int| 0 <= i < 8 ==> hex_value(#[trigger] hex8(id)[i]) is Some,
{
    reveal_with_fuel(pow16, 9);
    lemma_hex_digits_value(id as nat, 8);
    crate::text::lemma_hex_digits_ascii(id as nat, 8);
    lemma_hex_digits_are_digits(id as nat, 8);
}

proof fn lemma_hex_digits_are_digits(x: nat, n: nat)
    ensures
        forall|i: int| 0 <= i < hex_digits(x, n).len() ==> hex_value(#[trigger] hex_digits(x, n)[i]) is Some && hex_digits(x, n)[i] != '(' && hex_digits(x, n)[i] != '+' && hex_digits(x, n)[i] != '!' && hex_digits(x, n)[i] != 'x' && hex_digits(x, n)[i] != ')',
    decreases n,
{
    if n > 0 {
        lemma_hex_digits_are_digits(x / 16, (n - 1) as nat);
        assert(hex_value(hex_digit(x % 16)) == Some(x % 16));
    }
}

/// A node-id text typed as a destination (`!` and eight hex digits, or `0x`
/// and eight hex digits) names that node.
pub proof fn lemma_dest_input_round_trip(id: u32)
    ensures
        dest_input_id(seq!['!'] + hex8(id)) == Some(id),
        dest_input_id(seq!['0', 'x'] + hex8(id)) == Some(id),
        dest_input_id(hex8(id)) == Some(id),
{
    lemma_hex8_value(id);
    lemma_hex_digits_are_digits(id as nat, 8);
    let h = hex8(id);
    assert((seq!['!'] + h).drop_first() =~= h);
    assert(h[0] != '!');
    assert(strip_bangs(h) == h);
    assert(h[1] != 'x');
    assert(strip_0x(h) == h);
    let z = seq!['0', 'x'] + h;
    assert(strip_bangs(z) == z);
    assert(z.skip(2) =~= h);
    assert(h[0] != '+');
}

proof fn lemma_find_first(cs: Seq<char>, pat: Seq<char>, from: nat, k: nat)
    requires
        from <= k,
        k + pat.len() <= cs.len(),
        cs.subrange(k as int, (k + pat.len()) as int) == pat,
        forall|p: int| from <= p < k ==> #[trigger] cs.subrange(p, p + pat.len()) != pat,
    ensures
        find_from(cs, pat, from) == Some(k),
    decreases k - from,
{
    if from < k {
        assert(cs.subrange(from as int, (from + pat.len()) as int) != pat);
        lemma_find_first(cs, pat, from + 1, k);
    }
}

proof fn lemma_find_none(cs: Seq<char>, pat: Seq<char>, from: nat)
    requires
        pat.len() > 0,
        forall|p: int| from <= p < cs.len() ==> #[trigger] cs[p] != pat[0],
    ensures
        find_from(cs, pat, from) is None,
    decreases cs.len() + 1 - from,
{
    if from + pat.len() <= cs.len() {
        assert(cs.subrange(from as int, (from + pat.len()) as int)[0] == cs[from as int]);
        lemma_find_none(cs, pat, from + 1);
    }
}

/// A neighbour-list line, as `neighbour_label` writes it, reads back to the
/// short name and the node ID, when the short name holds no `(`.
pub proof fn lemma_label_round_trip(short: Seq<char>, id: u32)
    requires
        forall|i: int| 0 <= i < short.len() ==> short[i] != '(',
    ensures
        label_entry(short + " (!"@ + hex8(id) + ")"@) == Some((short, id)),
{
    reveal_strlit(" (!");
    reveal_strlit(")");
    let h = hex8(id);
    lemma_hex8_value(id);
    lemma_hex_digits_are_digits(id as nat, 8);
    let l = short.len() as int;
    let cs = short + " (!"@ + h + ")"@;
    assert(cs =~= short + seq![' ', '(', '!'] + h + seq![')']);
    assert(cs.len() == l + 12);
    assert forall|p: int| 0 <= p < l + 12 implies #[trigger] cs[p] == if p < l {
        short[p]
    } else if p == l {
        ' '
    } else if p == l + 1 {
        '('
    } else if p == l + 2 {
        '!'
    } else if p < l + 11 {
        h[p - l - 3]
    } else {
        ')'
    } by {}
    let open = seq!['(', '!'];
    let open_sp = seq![' ', '(', '!'];
    assert forall|p: int| 0 <= p < l + 1 implies #[trigger] cs.subrange(p, p + open.len()) != open by {
        assert(cs.subrange(p, p + 2)[0] == cs[p]);
    }
    assert(cs.subrange(l + 1, l + 3) =~= open);
    lemma_find_first(cs, open, 0, (l + 1) as nat);
    let after = cs.skip(l + 3);
    assert(after =~= h + seq![')']);
    assert forall|p: int| 0 <= p < after.len() implies #[trigger] after[p] != open[0] by {
        assert(after[p] == cs[p + l + 3]);
    }
    lemma_find_none(after, open, 0);
    assert(after.drop_last() =~= h);
    assert forall|p: int| 0 <= p < l implies #[trigger] cs.subrange(p, p + open_sp.len()) != open_sp by {
        assert(cs.subrange(p, p + 3)[1] == cs[p + 1]);
    }
    assert(cs.subrange(l, l + 3) =~= open_sp);
    lemma_find_first(cs, open_sp, 0, l as nat);
    assert(cs.take(l) =~= short);
}

} // verus!
