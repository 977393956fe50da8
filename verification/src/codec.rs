//! The persisted state document.
//!
//! The store snapshot is written as one JSON object with three fields,
//! each a flat array of unsigned decimal numbers:
//!
//! ```text
//! {"chats":[...],"users":[...],"spam_names":[...]}
//! ```
//!
//! A chat slot takes four numbers (chat-id sign, chat-id magnitude, user id,
//! repetition count); a user takes five (user id, a tag that is 0 for
//! `Authentic` and 1 for a suspect, then score and the two timestamps); a
//! recorded name takes its length, its characters as Unicode scalar values,
//! and then count and the two timestamps. Decoding accepts exactly what
//! encoding produces and rejects anything else; the round trip is proved
//! below (`lemma_document_round_trip`).

use crate::antispam::spam_names::Encounter;
use crate::antispam::SpamState;
use crate::storage::{AhCount, Data, Storage, StoreModel};
use vstd::prelude::*;

verus! {

pub open spec fn is_digit(c: char) -> bool {
    '0' <= c && c <= '9'
}

pub open spec fn digit_val(c: char) -> nat {
    if c == '0' { 0 } else if c == '1' { 1 } else if c == '2' { 2 } else if c == '3' { 3 }
    else if c == '4' { 4 } else if c == '5' { 5 } else if c == '6' { 6 } else if c == '7' { 7 }
    else if c == '8' { 8 } else if c == '9' { 9 } else { 10 }
}

pub open spec fn digit_char(d: nat) -> char {
    if d == 0 { '0' } else if d == 1 { '1' } else if d == 2 { '2' } else if d == 3 { '3' }
    else if d == 4 { '4' } else if d == 5 { '5' } else if d == 6 { '6' } else if d == 7 { '7' }
    else if d == 8 { '8' } else { '9' }
}

/// The decimal digits of `n`, most significant first.
pub open spec fn spec_dec_u64(n: nat) -> Seq<char>
    decreases n,
{
    if n < 10 {
        seq![digit_char(n)]
    } else {
        spec_dec_u64(n / 10).push(digit_char(n % 10))
    }
}

/// The value of a digit sequence, most significant first.
pub open spec fn seq_val(d: Seq<char>) -> nat
    decreases d.len(),
{
    if d.len() == 0 {
        0
    } else {
        seq_val(d.drop_last()) * 10 + digit_val(d.last())
    }
}

pub open spec fn all_digits(d: Seq<char>) -> bool {
    forall|i: int| 0 <= i < d.len() ==> is_digit(#[trigger] d[i])
}

pub open spec fn pow10(k: nat) -> nat
    decreases k,
{
    if k == 0 {
        1
    } else {
        10 * pow10((k - 1) as nat)
    }
}

/// The decimal digits of `n` are digits, at least one, and read back as `n`.
pub proof fn lemma_dec_u64_digits(n: nat)
    ensures
        spec_dec_u64(n).len() >= 1,
        all_digits(spec_dec_u64(n)),
        seq_val(spec_dec_u64(n)) == n,
    decreases n,
{
    if n < 10 {
        assert(spec_dec_u64(n) =~= seq![digit_char(n)]);
        assert(spec_dec_u64(n).drop_last() =~= Seq::<char>::empty());
        assert(is_digit(digit_char(n)));
        assert(digit_val(digit_char(n)) == n);
        assert(seq_val(spec_dec_u64(n)) == seq_val(Seq::<char>::empty()) * 10 + digit_val(
            digit_char(n),
        ));
        assert(seq_val(spec_dec_u64(n)) == n);
    } else {
        lemma_dec_u64_digits(n / 10);
        let d = spec_dec_u64(n);
        assert(d.drop_last() =~= spec_dec_u64(n / 10));
        assert(d.last() == digit_char(n % 10));
        assert(is_digit(digit_char(n % 10)));
        assert(digit_val(digit_char(n % 10)) == n % 10);
        assert(seq_val(d) == (n / 10) * 10 + n % 10);
        vstd::arithmetic::div_mod::lemma_fundamental_div_mod(n as int, 10int);
        assert(seq_val(d) == n);
        assert forall|i: int| 0 <= i < d.len() implies is_digit(#[trigger] d[i]) by {
            if i < d.len() - 1 {
                assert(d[i] == spec_dec_u64(n / 10)[i]);
            }
        }
    }
}

/// Append the decimal digits of `n`.
pub fn encode_u64(n: u64, out: &mut Vec<char>)
    ensures
        final(out)@ =~= old(out)@ + spec_dec_u64(n as nat),
    decreases n,
{
    if n >= 10 {
        encode_u64(n / 10, out);
    }
    let d: u64 = n % 10;
    let c: char = digit_to_char(d);
    proof {
        if n < 10 {
            assert(spec_dec_u64(n as nat) =~= seq![digit_char(n as nat)]);
        }
    }
    out.push(c);
}

/// Greedy decimal parse starting at `pos` with accumulator `acc`; `None` on
/// a counter overflow. The guard on the recursive position keeps the
/// recursion well founded.
pub open spec fn spec_parse_u64_rec(s: Seq<char>, pos: int, acc: nat) -> Option<(u64, int)>
    decreases s.len() - pos,
{
    if 0 <= pos < s.len() && is_digit(s[pos]) {
        let acc2 = acc * 10 + digit_val(s[pos]);
        if acc2 > u64::MAX {
            None
        } else {
            spec_parse_u64_rec(s, pos + 1, acc2)
        }
    } else {
        Some(((acc as u64), pos))
    }
}

/// Parse a decimal number at `pos`: at least one digit, greedy, `None` on
/// overflow or when no digit starts here.
pub open spec fn spec_parse_u64(s: Seq<char>, pos: int) -> Option<(u64, int)> {
    if 0 <= pos < s.len() && is_digit(s[pos]) {
        spec_parse_u64_rec(s, pos, 0)
    } else {
        None
    }
}

/// The digit character for `d` (which must be below ten).
fn digit_to_char(d: u64) -> (c: char)
    requires
        d < 10,
    ensures
        c == digit_char(d as nat),
{
    match d {
        0 => '0',
        1 => '1',
        2 => '2',
        3 => '3',
        4 => '4',
        5 => '5',
        6 => '6',
        7 => '7',
        8 => '8',
        _ => '9',
    }
}

/// The value of a digit character, or ten for anything else.
fn char_digit_val(c: char) -> (r: u64)
    ensures
        r == digit_val(c),
{
    match c {
        '0' => 0,
        '1' => 1,
        '2' => 2,
        '3' => 3,
        '4' => 4,
        '5' => 5,
        '6' => 6,
        '7' => 7,
        '8' => 8,
        '9' => 9,
        _ => 10,
    }
}

fn digit_at(s: &Vec<char>, p: usize) -> (r: bool)
    ensures
        r == (p < s@.len() && is_digit(s@[p as int])),
{
    if p < s.len() {
        let v = char_digit_val(s[p]);
        v < 10
    } else {
        false
    }
}

proof fn lemma_pow10_pos(k: nat)
    ensures
        pow10(k) >= 1,
    decreases k,
{
    if k > 0 {
        lemma_pow10_pos((k - 1) as nat);
    }
}

/// Head decomposition of a digit sequence's value.
proof fn lemma_seq_val_head(d: Seq<char>)
    requires
        d.len() >= 1,
    ensures
        seq_val(d) == digit_val(d[0]) * pow10((d.len() - 1) as nat) + seq_val(d.drop_first()),
    decreases d.len(),
{
    if d.len() == 1 {
        assert(d.drop_first() =~= Seq::<char>::empty());
        assert(d.drop_last() =~= Seq::<char>::empty());
        assert(d.last() == d[0]);
        assert(seq_val(Seq::<char>::empty()) == 0);
        assert(seq_val(d) == digit_val(d[0]));
        assert(pow10(0) == 1);
        assert(digit_val(d[0]) * 1 == digit_val(d[0]));
        assert(seq_val(d) == digit_val(d[0]) * pow10((d.len() - 1) as nat) + seq_val(
            d.drop_first(),
        ));
    } else {
        let e = d.drop_last();
        lemma_seq_val_head(e);
        assert(d.drop_first().drop_last() =~= e.drop_first());
        assert(d.drop_first().last() == d.last());
        assert(d[0] == e[0]);
        assert(seq_val(d.drop_first()) == seq_val(e.drop_first()) * 10 + digit_val(d.last()));
        let a = digit_val(d[0]);
        let p = pow10((e.len() - 1) as nat);
        assert(pow10((d.len() - 1) as nat) == 10 * p);
        assert(seq_val(d) == (a * p + seq_val(e.drop_first())) * 10 + digit_val(d.last()));
        assert((a * p + seq_val(e.drop_first())) * 10 == a * (10 * p) + seq_val(e.drop_first())
            * 10) by (nonlinear_arith);
        assert(seq_val(d) == a * (10 * p) + (seq_val(e.drop_first()) * 10 + digit_val(d.last())));
        assert(seq_val(d) == digit_val(d[0]) * pow10((d.len() - 1) as nat) + seq_val(
            d.drop_first(),
        ));
    }
}

/// The greedy parser consumes exactly a block of `k` digits ending at a
/// non-digit (or the end), returning the accumulated value.
proof fn lemma_parse_digits(s: Seq<char>, pos: int, k: int, acc: nat)
    requires
        0 <= pos,
        0 <= k,
        pos + k <= s.len(),
        forall|i: int| pos <= i < pos + k ==> is_digit(#[trigger] s[i]),
        pos + k == s.len() || !is_digit(s[pos + k]),
        acc * pow10(k as nat) + seq_val(s.subrange(pos, pos + k)) <= u64::MAX,
    ensures
        spec_parse_u64_rec(s, pos, acc) == Some(
            (((acc * pow10(k as nat) + seq_val(s.subrange(pos, pos + k))) as u64), pos + k),
        ),
    decreases k,
{
    let block = s.subrange(pos, pos + k);
    if k == 0 {
        assert(block =~= Seq::<char>::empty());
        assert(seq_val(Seq::<char>::empty()) == 0);
        assert(pow10(0) == 1);
        assert(acc * 1 == acc);
        assert(acc * pow10(k as nat) + seq_val(block) == acc);
        assert(spec_parse_u64_rec(s, pos, acc) == Some(((acc as u64), pos)));
    } else {
        let c = s[pos];
        assert(block[0] == c);
        assert(is_digit(c));
        lemma_seq_val_head(block);
        assert(block.drop_first() =~= s.subrange(pos + 1, pos + k));
        let p1 = pow10((k - 1) as nat);
        lemma_pow10_pos((k - 1) as nat);
        let acc2 = acc * 10 + digit_val(c);
        let rest = seq_val(s.subrange(pos + 1, pos + k));
        assert(seq_val(block) == digit_val(c) * p1 + rest);
        assert(pow10(k as nat) == 10 * p1);
        assert(acc * (10 * p1) + digit_val(c) * p1 == (acc * 10 + digit_val(c)) * p1)
            by (nonlinear_arith);
        assert(acc2 * pow10((k - 1) as nat) + rest == acc * pow10(k as nat) + seq_val(block));
        assert(acc2 <= acc2 * p1) by (nonlinear_arith)
            requires
                p1 >= 1,
                acc2 >= 0,
        ;
        assert(acc2 <= u64::MAX);
        lemma_parse_digits(s, pos + 1, k - 1, acc2);
        assert(spec_parse_u64_rec(s, pos + 1, acc2) == Some(
            (((acc2 * pow10((k - 1) as nat) + rest) as u64), pos + k),
        ));
        assert(spec_parse_u64_rec(s, pos, acc) == spec_parse_u64_rec(s, pos + 1, acc2));
        assert(acc2 * pow10((k - 1) as nat) + rest == acc * pow10(k as nat) + seq_val(block));
    }
}

/// Parsing at the start of the printed digits of `n` yields `n` back and
/// stops right after them, provided no digit follows.
pub proof fn lemma_parse_dec_at(s: Seq<char>, pos: int, n: u64)
    requires
        0 <= pos,
        pos + spec_dec_u64(n as nat).len() <= s.len(),
        s.subrange(pos, pos + spec_dec_u64(n as nat).len() as int) == spec_dec_u64(n as nat),
        pos + spec_dec_u64(n as nat).len() == s.len() || !is_digit(
            s[pos + spec_dec_u64(n as nat).len()],
        ),
    ensures
        spec_parse_u64(s, pos) == Some((n, pos + spec_dec_u64(n as nat).len())),
{
    lemma_dec_u64_digits(n as nat);
    let k = spec_dec_u64(n as nat).len() as int;
    assert forall|i: int| pos <= i < pos + k implies is_digit(#[trigger] s[i]) by {
        assert(s[i] == spec_dec_u64(n as nat)[i - pos]);
    }
    lemma_pow10_pos(k as nat);
    assert(0 * pow10(k as nat) == 0) by (nonlinear_arith);
    lemma_parse_digits(s, pos, k, 0);
    assert(s[pos] == spec_dec_u64(n as nat)[0]);
}

/// Parse a decimal number at `pos`.
pub fn parse_u64(s: &Vec<char>, pos: usize) -> (r: Option<(u64, usize)>)
    ensures
        ({
            match r {
                Option::Some((n, p)) => spec_parse_u64(s@, pos as int) == Some((n, p as int)),
                Option::None => spec_parse_u64(s@, pos as int) is None,
            }
        }),
{
    if !digit_at(s, pos) {
        return None;
    }
    let slen = s.len();
    let mut acc: u64 = 0;
    let mut p = pos;
    while digit_at(s, p)
        invariant
            slen == s@.len(),
            pos <= p <= slen,
            spec_parse_u64_rec(s@, pos as int, 0) == spec_parse_u64_rec(s@, p as int, acc as nat),
        decreases s@.len() - p,
    {
        let d: u64 = char_digit_val(s[p]);
        if acc > (u64::MAX - d) / 10 {
            proof {
                assert((acc as nat) * 10 + (d as nat) > u64::MAX) by (nonlinear_arith)
                    requires
                        acc > (u64::MAX - d) / 10,
                        d <= 9,
                        acc <= u64::MAX,
                ;
            }
            return None;
        }
        proof {
            assert((acc as nat) * 10 + (d as nat) <= u64::MAX) by (nonlinear_arith)
                requires
                    acc <= (u64::MAX - d) / 10,
                    d <= 9,
                ;
        }
        acc = acc * 10 + d;
        p += 1;
    }
    Some((acc, p))
}

/// The comma-separated decimal items of a number array.
pub open spec fn spec_enc_items(xs: Seq<u64>) -> Seq<char>
    decreases xs.len(),
{
    if xs.len() == 0 {
        Seq::empty()
    } else if xs.len() == 1 {
        spec_dec_u64(xs[0] as nat)
    } else {
        spec_dec_u64(xs[0] as nat) + seq![','] + spec_enc_items(xs.drop_first())
    }
}

/// A number array: the items between brackets.
pub open spec fn spec_enc_u64_list(xs: Seq<u64>) -> Seq<char> {
    seq!['['] + spec_enc_items(xs) + seq![']']
}

proof fn lemma_enc_items_push(xs: Seq<u64>, x: u64)
    ensures
        spec_enc_items(xs.push(x)) == if xs.len() == 0 {
            spec_dec_u64(x as nat)
        } else {
            spec_enc_items(xs) + seq![','] + spec_dec_u64(x as nat)
        },
    decreases xs.len(),
{
    let p = xs.push(x);
    if xs.len() == 0 {
        assert(p.len() == 1);
        assert(p[0] == x);
    } else {
        assert(p.drop_first() =~= xs.drop_first().push(x));
        lemma_enc_items_push(xs.drop_first(), x);
        assert(p[0] == xs[0]);
        if xs.len() == 1 {
            assert(spec_enc_items(p) == spec_dec_u64(xs[0] as nat) + seq![','] + spec_dec_u64(
                x as nat,
            ));
        } else {
            assert(spec_dec_u64(xs[0] as nat) + seq![','] + (spec_enc_items(xs.drop_first())
                + seq![','] + spec_dec_u64(x as nat)) =~= (spec_dec_u64(xs[0] as nat) + seq![',']
                + spec_enc_items(xs.drop_first())) + seq![','] + spec_dec_u64(x as nat));
        }
    }
}

/// Append the document form of a number array.
pub fn encode_u64_list(xs: &Vec<u64>, out: &mut Vec<char>)
    ensures
        final(out)@ =~= old(out)@ + spec_enc_u64_list(xs@),
{
    out.push('[');
    let n = xs.len();
    for i in 0..n
        invariant
            n == xs@.len(),
            out@ =~= old(out)@ + seq!['['] + spec_enc_items(xs@.take(i as int)),
    {
        let ghost before = out@;
        if i > 0 {
            out.push(',');
        }
        encode_u64(xs[i], out);
        proof {
            assert(xs@.take(i + 1) =~= xs@.take(i as int).push(xs@[i as int]));
            lemma_enc_items_push(xs@.take(i as int), xs@[i as int]);
            if i == 0 {
                assert(out@ =~= old(out)@ + seq!['['] + spec_enc_items(xs@.take(i + 1)));
            } else {
                assert(out@ =~= before + seq![','] + spec_dec_u64(xs@[i as int] as nat));
                assert(out@ =~= old(out)@ + seq!['['] + spec_enc_items(xs@.take(i + 1)));
            }
        }
    }
    proof {
        assert(xs@.take(n as int) =~= xs@);
    }
    out.push(']');
    proof {
        assert(out@ =~= old(out)@ + spec_enc_u64_list(xs@));
    }
}

/// Parse `number (',' number)* ']'`, collecting onto `acc`. The position
/// guard keeps the recursion well founded; a parsed number always moves the
/// position forward, so the guard never fires on real input.
pub open spec fn spec_parse_items_rec(s: Seq<char>, pos: int, acc: Seq<u64>) -> Option<
    (Seq<u64>, int),
>
    decreases s.len() - pos,
{
    match spec_parse_u64(s, pos) {
        Option::None => None,
        Option::Some((n, p)) => {
            if !(pos < p <= s.len()) {
                None
            } else if p < s.len() && s[p] == ',' {
                spec_parse_items_rec(s, p + 1, acc.push(n))
            } else if p < s.len() && s[p] == ']' {
                Some((acc.push(n), p + 1))
            } else {
                None
            }
        },
    }
}

/// Parse a number array at `pos`.
pub open spec fn spec_parse_u64_list(s: Seq<char>, pos: int) -> Option<(Seq<u64>, int)> {
    if 0 <= pos < s.len() && s[pos] == '[' {
        if pos + 1 < s.len() && s[pos + 1] == ']' {
            Some((Seq::<u64>::empty(), pos + 2))
        } else {
            spec_parse_items_rec(s, pos + 1, Seq::empty())
        }
    } else {
        None
    }
}

/// A successful number parse moves the position forward, at most to the end.
proof fn lemma_parse_u64_rec_bounds(s: Seq<char>, pos: int, acc: nat)
    requires
        0 <= pos <= s.len(),
    ensures
        match spec_parse_u64_rec(s, pos, acc) {
            Option::Some((_, p)) => pos <= p <= s.len(),
            Option::None => true,
        },
    decreases s.len() - pos,
{
    if 0 <= pos < s.len() && is_digit(s[pos]) {
        let acc2 = acc * 10 + digit_val(s[pos]);
        if acc2 <= u64::MAX {
            lemma_parse_u64_rec_bounds(s, pos + 1, acc2);
        }
    }
}

proof fn lemma_parse_u64_bounds(s: Seq<char>, pos: int)
    requires
        0 <= pos,
    ensures
        match spec_parse_u64(s, pos) {
            Option::Some((_, p)) => pos < p <= s.len(),
            Option::None => true,
        },
{
    if pos < s.len() && is_digit(s[pos]) {
        let acc2 = digit_val(s[pos]);
        if acc2 <= u64::MAX {
            lemma_parse_u64_rec_bounds(s, pos + 1, acc2);
        }
    }
}

/// Parsing at the start of printed items (with the closing bracket right
/// after them) collects exactly those items.
proof fn lemma_parse_enc_items(s: Seq<char>, pos: int, xs: Seq<u64>, acc: Seq<u64>)
    requires
        xs.len() >= 1,
        0 <= pos,
        pos + spec_enc_items(xs).len() + 1 <= s.len(),
        s.subrange(pos, pos + spec_enc_items(xs).len() as int) == spec_enc_items(xs),
        s[pos + spec_enc_items(xs).len()] == ']',
    ensures
        spec_parse_items_rec(s, pos, acc) == Some(
            (acc + xs, pos + spec_enc_items(xs).len() + 1),
        ),
    decreases xs.len(),
{
    let d = spec_dec_u64(xs[0] as nat);
    lemma_dec_u64_digits(xs[0] as nat);
    let e = spec_enc_items(xs);
    if xs.len() == 1 {
        assert(e == d);
        assert(s.subrange(pos, pos + d.len() as int) =~= d);
        assert(!is_digit(']'));
        lemma_parse_dec_at(s, pos, xs[0]);
        assert(spec_parse_items_rec(s, pos, acc) == Some((acc.push(xs[0]), pos + d.len() + 1)));
        assert(acc.push(xs[0]) =~= acc + xs);
    } else {
        let rest = spec_enc_items(xs.drop_first());
        assert(e == d + seq![','] + rest);
        assert(s.subrange(pos, pos + d.len() as int) =~= d);
        assert(s[pos + d.len()] == e[d.len() as int]);
        assert(e[d.len() as int] == ',');
        assert(!is_digit(','));
        lemma_parse_dec_at(s, pos, xs[0]);
        let p = pos + d.len() as int;
        assert(s.subrange(p + 1, p + 1 + rest.len() as int) =~= rest) by {
            assert forall|i: int| 0 <= i < rest.len() implies s.subrange(
                p + 1,
                p + 1 + rest.len() as int,
            )[i] == rest[i] by {
                assert(s[p + 1 + i] == e[d.len() + 1 + i]);
                assert(e[d.len() + 1 + i] == rest[i]);
            }
        }
        assert(s[p + 1 + rest.len()] == ']');
        lemma_parse_enc_items(s, p + 1, xs.drop_first(), acc.push(xs[0]));
        assert(acc.push(xs[0]) + xs.drop_first() =~= acc + xs);
        assert(pos + e.len() == p + 1 + rest.len());
    }
}

/// Parsing at the start of a printed number array yields the array back.
pub proof fn lemma_parse_enc_u64_list(s: Seq<char>, pos: int, xs: Seq<u64>)
    requires
        0 <= pos,
        pos + spec_enc_u64_list(xs).len() <= s.len(),
        s.subrange(pos, pos + spec_enc_u64_list(xs).len() as int) == spec_enc_u64_list(xs),
    ensures
        spec_parse_u64_list(s, pos) == Some((xs, pos + spec_enc_u64_list(xs).len())),
{
    let full = spec_enc_u64_list(xs);
    assert(s[pos] == full[0]);
    assert(full[0] == '[');
    if xs.len() == 0 {
        assert(spec_enc_items(xs) =~= Seq::<char>::empty());
        assert(full.len() == 2);
        assert(s[pos + 1] == full[1]);
        assert(full[1] == ']');
        assert(Seq::<u64>::empty() =~= xs);
    } else {
        let e = spec_enc_items(xs);
        assert(e.len() >= 1) by {
            lemma_dec_u64_digits(xs[0] as nat);
        }
        assert(s[pos + 1] == full[1]);
        assert(full[1] == e[0]);
        assert(e[0] != ']') by {
            lemma_dec_u64_digits(xs[0] as nat);
            if xs.len() == 1 {
                assert(e[0] == spec_dec_u64(xs[0] as nat)[0]);
            } else {
                assert(e[0] == spec_dec_u64(xs[0] as nat)[0]);
            }
            assert(is_digit(e[0]));
            assert(!is_digit(']'));
        }
        assert(s.subrange(pos + 1, pos + 1 + e.len() as int) =~= e) by {
            assert forall|i: int| 0 <= i < e.len() implies s.subrange(
                pos + 1,
                pos + 1 + e.len() as int,
            )[i] == e[i] by {
                assert(s[pos + 1 + i] == full[1 + i]);
                assert(full[1 + i] == e[i]);
            }
        }
        assert(s[pos + 1 + e.len()] == full[1 + e.len() as int]);
        assert(full[1 + e.len() as int] == ']');
        lemma_parse_enc_items(s, pos + 1, xs, Seq::empty());
        assert(Seq::<u64>::empty() + xs =~= xs);
    }
}

/// Parse a number array at `pos`.
pub fn parse_u64_list(s: &Vec<char>, pos: usize) -> (r: Option<(Vec<u64>, usize)>)
    ensures
        ({
            match r {
                Option::Some((xs, p)) => spec_parse_u64_list(s@, pos as int) == Some(
                    (xs@, p as int),
                ),
                Option::None => spec_parse_u64_list(s@, pos as int) is None,
            }
        }),
{
    let slen = s.len();
    if !(pos < slen && s[pos] == '[') {
        return None;
    }
    if pos + 1 < slen && s[pos + 1] == ']' {
        return Some((Vec::new(), pos + 2));
    }
    let mut acc: Vec<u64> = Vec::new();
    let mut p = pos + 1;
    loop
        invariant
            slen == s@.len(),
            pos + 1 <= p <= slen,
            pos < slen,
            spec_parse_u64_list(s@, pos as int) == spec_parse_items_rec(s@, pos + 1, Seq::empty()),
            spec_parse_items_rec(s@, pos + 1, Seq::empty()) == spec_parse_items_rec(
                s@,
                p as int,
                acc@,
            ),
        decreases slen - p,
    {
        match parse_u64(s, p) {
            None => {
                return None;
            },
            Some((n, p2)) => {
                proof {
                    lemma_parse_u64_bounds(s@, p as int);
                }
                acc.push(n);
                if p2 < slen && s[p2] == ',' {
                    p = p2 + 1;
                } else if p2 < slen && s[p2] == ']' {
                    return Some((acc, p2 + 1));
                } else {
                    return None;
                }
            },
        }
    }
}

pub open spec fn i64_sign(x: i64) -> u64 {
    if x < 0 {
        1u64
    } else {
        0u64
    }
}

pub open spec fn i64_mag(x: i64) -> u64 {
    if x < 0 {
        (-(x as int)) as u64
    } else {
        x as u64
    }
}

/// One chat slot as four numbers: chat-id sign and magnitude, user, count.
pub open spec fn flat_chat_at(cs: Seq<(i64, AhCount)>, j: int) -> u64 {
    let e = cs[j / 4];
    if j % 4 == 0 {
        i64_sign(e.0)
    } else if j % 4 == 1 {
        i64_mag(e.0)
    } else if j % 4 == 2 {
        e.1.uid
    } else {
        e.1.noa as u64
    }
}

pub open spec fn spec_flat_chats(cs: Seq<(i64, AhCount)>) -> Seq<u64> {
    Seq::new((cs.len() * 4) as nat, |j: int| flat_chat_at(cs, j))
}

pub open spec fn chat_entry_ok(ns: Seq<u64>, i: int) -> bool {
    let sign = ns[4 * i];
    let mag = ns[4 * i + 1];
    &&& (sign == 0 || sign == 1)
    &&& (sign == 0 ==> mag <= i64::MAX as u64)
    &&& (sign == 1 ==> 1 <= mag <= (i64::MAX as u64) + 1)
    &&& ns[4 * i + 3] <= u32::MAX as u64
}

pub open spec fn chat_entry(ns: Seq<u64>, i: int) -> (i64, AhCount) {
    let sign = ns[4 * i];
    let mag = ns[4 * i + 1];
    let cid: i64 = if sign == 1 {
        (-(mag as int)) as i64
    } else {
        mag as i64
    };
    (cid, AhCount { uid: ns[4 * i + 2], noa: ns[4 * i + 3] as u32 })
}

pub open spec fn spec_unflat_chats(ns: Seq<u64>) -> Option<Seq<(i64, AhCount)>> {
    if ns.len() % 4 == 0 && (forall|i: int|
        0 <= i < ns.len() / 4 ==> #[trigger] chat_entry_ok(ns, i)) {
        Some(Seq::new((ns.len() / 4) as nat, |i: int| chat_entry(ns, i)))
    } else {
        None
    }
}

/// One user as five numbers: the user, a tag (0 authentic, 1 suspect), then
/// score and the two timestamps (zero for an authentic user).
pub open spec fn flat_user_at(us: Seq<(u64, SpamState)>, j: int) -> u64 {
    let e = us[j / 5];
    if j % 5 == 0 {
        e.0
    } else {
        match e.1 {
            SpamState::Authentic => 0u64,
            SpamState::MaybeSpam { score, create_ts_secs, update_ts_secs } => {
                if j % 5 == 1 {
                    1u64
                } else if j % 5 == 2 {
                    score as u64
                } else if j % 5 == 3 {
                    create_ts_secs
                } else {
                    update_ts_secs
                }
            },
        }
    }
}

pub open spec fn spec_flat_users(us: Seq<(u64, SpamState)>) -> Seq<u64> {
    Seq::new((us.len() * 5) as nat, |j: int| flat_user_at(us, j))
}

pub open spec fn user_entry_ok(ns: Seq<u64>, i: int) -> bool {
    let tag = ns[5 * i + 1];
    &&& (tag == 0 || tag == 1)
    &&& (tag == 0 ==> ns[5 * i + 2] == 0 && ns[5 * i + 3] == 0 && ns[5 * i + 4] == 0)
    &&& (tag == 1 ==> ns[5 * i + 2] <= u8::MAX as u64)
}

pub open spec fn user_entry(ns: Seq<u64>, i: int) -> (u64, SpamState) {
    let tag = ns[5 * i + 1];
    let st = if tag == 0 {
        SpamState::Authentic
    } else {
        SpamState::MaybeSpam {
            score: ns[5 * i + 2] as u8,
            create_ts_secs: ns[5 * i + 3],
            update_ts_secs: ns[5 * i + 4],
        }
    };
    (ns[5 * i], st)
}

pub open spec fn spec_unflat_users(ns: Seq<u64>) -> Option<Seq<(u64, SpamState)>> {
    if ns.len() % 5 == 0 && (forall|i: int|
        0 <= i < ns.len() / 5 ==> #[trigger] user_entry_ok(ns, i)) {
        Some(Seq::new((ns.len() / 5) as nat, |i: int| user_entry(ns, i)))
    } else {
        None
    }
}

/// Whether a stored number is a Unicode scalar value (a character).
pub open spec fn valid_scalar_u64(x: u64) -> bool {
    x <= 0x10FFFF && vstd::utf8::is_scalar(x as u32)
}

/// One recorded name: its length, its characters as Unicode scalar values,
/// then count and the two timestamps.
pub open spec fn spec_flat_name_entry(t: (Seq<char>, Encounter)) -> Seq<u64> {
    seq![t.0.len() as u64] + Seq::new(t.0.len(), |i: int| (t.0[i] as u32) as u64) + seq![
        t.1.count as u64,
        t.1.first_seen_ts_secs,
        t.1.last_seen_ts_secs,
    ]
}

pub open spec fn spec_flat_names(ts: Seq<(Seq<char>, Encounter)>) -> Seq<u64>
    decreases ts.len(),
{
    if ts.len() == 0 {
        Seq::empty()
    } else {
        spec_flat_name_entry(ts[0]) + spec_flat_names(ts.drop_first())
    }
}

pub open spec fn spec_unflat_names(ns: Seq<u64>) -> Option<Seq<(Seq<char>, Encounter)>>
    decreases ns.len(),
{
    if ns.len() == 0 {
        Some(Seq::empty())
    } else {
        let l = ns[0] as int;
        if ns.len() < l + 4 {
            None
        } else if !(forall|i: int| 0 <= i < l ==> valid_scalar_u64(#[trigger] ns[1 + i])) {
            None
        } else if ns[1 + l] > usize::MAX as u64 {
            None
        } else {
            let name = Seq::new(l as nat, |i: int| (ns[1 + i] as u32) as char);
            let e = Encounter {
                count: ns[1 + l] as usize,
                first_seen_ts_secs: ns[2 + l],
                last_seen_ts_secs: ns[3 + l],
            };
            match spec_unflat_names(ns.skip(l + 4)) {
                Option::None => None,
                Option::Some(tail) => Some(seq![(name, e)] + tail),
            }
        }
    }
}

proof fn lemma_stride4(i: int, k: int)
    requires
        0 <= i,
        0 <= k < 4,
    ensures
        (4 * i + k) / 4 == i,
        (4 * i + k) % 4 == k,
{
    vstd::arithmetic::div_mod::lemma_div_multiples_vanish_fancy(i, k, 4);
    vstd::arithmetic::div_mod::lemma_mod_multiples_vanish(i, k, 4);
    assert(4 * i + k == i * 4 + k) by (nonlinear_arith);
    assert((k + i * 4) % 4 == k % 4);
    assert(k % 4 == k) by {
        vstd::arithmetic::div_mod::lemma_small_mod(k as nat, 4nat);
    }
}

proof fn lemma_stride5(i: int, k: int)
    requires
        0 <= i,
        0 <= k < 5,
    ensures
        (5 * i + k) / 5 == i,
        (5 * i + k) % 5 == k,
{
    vstd::arithmetic::div_mod::lemma_div_multiples_vanish_fancy(i, k, 5);
    vstd::arithmetic::div_mod::lemma_mod_multiples_vanish(i, k, 5);
    assert(5 * i + k == i * 5 + k) by (nonlinear_arith);
    assert((k + i * 5) % 5 == k % 5);
    assert(k % 5 == k) by {
        vstd::arithmetic::div_mod::lemma_small_mod(k as nat, 5nat);
    }
}

/// Chat slots survive the flat number form unchanged.
proof fn lemma_unflat_flat_chats(cs: Seq<(i64, AhCount)>)
    ensures
        spec_unflat_chats(spec_flat_chats(cs)) == Some(cs),
{
    let ns = spec_flat_chats(cs);
    assert(ns.len() == cs.len() * 4);
    assert((cs.len() * 4) as int % 4 == 0) by (nonlinear_arith);
    assert((cs.len() * 4) as int / 4 == cs.len() as int) by (nonlinear_arith);
    assert(ns.len() / 4 == cs.len());
    assert forall|i: int| 0 <= i < ns.len() / 4 implies #[trigger] chat_entry_ok(ns, i) by {
        lemma_stride4(i, 0);
        lemma_stride4(i, 1);
        lemma_stride4(i, 2);
        lemma_stride4(i, 3);
        assert(ns[4 * i] == i64_sign(cs[i].0));
        assert(ns[4 * i + 1] == i64_mag(cs[i].0));
        assert(ns[4 * i + 3] == cs[i].1.noa as u64);
    }
    let out = spec_unflat_chats(ns).unwrap();
    assert forall|i: int| 0 <= i < cs.len() implies out[i] == cs[i] by {
        lemma_stride4(i, 0);
        lemma_stride4(i, 1);
        lemma_stride4(i, 2);
        lemma_stride4(i, 3);
        assert(out[i] == chat_entry(ns, i));
    }
    assert(out =~= cs);
}

/// Users survive the flat number form unchanged.
proof fn lemma_unflat_flat_users(us: Seq<(u64, SpamState)>)
    ensures
        spec_unflat_users(spec_flat_users(us)) == Some(us),
{
    let ns = spec_flat_users(us);
    assert(ns.len() == us.len() * 5);
    assert((us.len() * 5) as int % 5 == 0) by (nonlinear_arith);
    assert((us.len() * 5) as int / 5 == us.len() as int) by (nonlinear_arith);
    assert(ns.len() / 5 == us.len());
    assert forall|i: int| 0 <= i < ns.len() / 5 implies #[trigger] user_entry_ok(ns, i) by {
        lemma_stride5(i, 0);
        lemma_stride5(i, 1);
        lemma_stride5(i, 2);
        lemma_stride5(i, 3);
        lemma_stride5(i, 4);
    }
    let out = spec_unflat_users(ns).unwrap();
    assert forall|i: int| 0 <= i < us.len() implies out[i] == us[i] by {
        lemma_stride5(i, 0);
        lemma_stride5(i, 1);
        lemma_stride5(i, 2);
        lemma_stride5(i, 3);
        lemma_stride5(i, 4);
        assert(out[i] == user_entry(ns, i));
    }
    assert(out =~= us);
}

/// Recorded names survive the flat number form unchanged, as long as each
/// name's length fits the on-disk counter.
proof fn lemma_unflat_flat_names(ts: Seq<(Seq<char>, Encounter)>)
    requires
        forall|i: int| 0 <= i < ts.len() ==> (#[trigger] ts[i]).0.len() <= u64::MAX,
    ensures
        spec_unflat_names(spec_flat_names(ts)) == Some(ts),
    decreases ts.len(),
{
    if ts.len() == 0 {
    } else {
        let t = ts[0];
        let entry = spec_flat_name_entry(t);
        let rest = spec_flat_names(ts.drop_first());
        let ns = spec_flat_names(ts);
        assert(ns == entry + rest);
        let l = t.0.len() as int;
        let mid = Seq::new(t.0.len(), |k: int| (t.0[k] as u32) as u64);
        let tail3 = seq![t.1.count as u64, t.1.first_seen_ts_secs, t.1.last_seen_ts_secs];
        assert(entry == seq![t.0.len() as u64] + mid + tail3);
        assert(entry.len() == l + 4);
        assert(ns[0] == entry[0]);
        assert(entry[0] == (seq![t.0.len() as u64] + mid)[0]);
        assert(ns[0] == t.0.len() as u64);
        assert(ns[0] as int == l);
        assert(ns.len() >= l + 4);
        assert forall|i: int| 0 <= i < l implies valid_scalar_u64(#[trigger] ns[1 + i]) by {
            assert(ns[1 + i] == entry[1 + i]);
            assert(entry[1 + i] == (seq![t.0.len() as u64] + mid)[1 + i]);
            assert(entry[1 + i] == mid[i]);
            assert(mid[i] == (t.0[i] as u32) as u64);
            vstd::utf8::char_is_scalar(t.0[i]);
        }
        assert(ns[1 + l] == entry[1 + l] && entry[1 + l] == tail3[0]);
        assert(ns[1 + l] == t.1.count as u64);
        assert(ns[1 + l] <= usize::MAX as u64);
        assert(ns[2 + l] == entry[2 + l] && entry[2 + l] == tail3[1]);
        assert(ns[2 + l] == t.1.first_seen_ts_secs);
        assert(ns[3 + l] == entry[3 + l] && entry[3 + l] == tail3[2]);
        assert(ns[3 + l] == t.1.last_seen_ts_secs);
        let name = Seq::new(l as nat, |i: int| (ns[1 + i] as u32) as char);
        assert(name =~= t.0) by {
            assert forall|i: int| 0 <= i < l implies name[i] == t.0[i] by {
                assert(ns[1 + i] == entry[1 + i]);
                assert(entry[1 + i] == (seq![t.0.len() as u64] + mid)[1 + i]);
                assert(entry[1 + i] == mid[i]);
                assert(ns[1 + i] == (t.0[i] as u32) as u64);
                vstd::utf8::char_is_scalar(t.0[i]);
                assert(ns[1 + i] as u32 == t.0[i] as u32);
                vstd::utf8::char_u32_cast(t.0[i], t.0[i] as u32);
            }
        }
        assert(ns.skip(l + 4) =~= rest);
        lemma_unflat_flat_names(ts.drop_first());
        assert(seq![(name, Encounter {
            count: ns[1 + l] as usize,
            first_seen_ts_secs: ns[2 + l],
            last_seen_ts_secs: ns[3 + l],
        })] + ts.drop_first() =~= ts);
    }
}

pub open spec fn lit_chats() -> Seq<char> {
    seq!['{', '"', 'c', 'h', 'a', 't', 's', '"', ':']
}

pub open spec fn lit_users() -> Seq<char> {
    seq![',', '"', 'u', 's', 'e', 'r', 's', '"', ':']
}

pub open spec fn lit_names() -> Seq<char> {
    seq![',', '"', 's', 'p', 'a', 'm', '_', 'n', 'a', 'm', 'e', 's', '"', ':']
}

/// The whole state document: one JSON object with the three flat arrays.
pub open spec fn spec_enc_document(m: StoreModel) -> Seq<char> {
    lit_chats() + spec_enc_u64_list(spec_flat_chats(m.chats)) + lit_users() + spec_enc_u64_list(
        spec_flat_users(m.users),
    ) + lit_names() + spec_enc_u64_list(spec_flat_names(m.names)) + seq!['}']
}

pub open spec fn spec_match_lit(s: Seq<char>, pos: int, lit: Seq<char>) -> bool {
    &&& 0 <= pos
    &&& pos + lit.len() <= s.len()
    &&& s.subrange(pos, pos + lit.len() as int) == lit
}

/// Parse the whole state document; anything but the exact shape that
/// `spec_enc_document` produces is rejected.
pub open spec fn spec_parse_document(s: Seq<char>) -> Option<StoreModel> {
    if !spec_match_lit(s, 0, lit_chats()) {
        None
    } else {
        match spec_parse_u64_list(s, lit_chats().len() as int) {
            Option::None => None,
            Option::Some((ns1, p1)) => {
                if !spec_match_lit(s, p1, lit_users()) {
                    None
                } else {
                    match spec_parse_u64_list(s, p1 + lit_users().len()) {
                        Option::None => None,
                        Option::Some((ns2, p2)) => {
                            if !spec_match_lit(s, p2, lit_names()) {
                                None
                            } else {
                                match spec_parse_u64_list(s, p2 + lit_names().len()) {
                                    Option::None => None,
                                    Option::Some((ns3, p3)) => {
                                        if !(p3 + 1 == s.len() && s[p3] == '}') {
                                            None
                                        } else {
                                            match (
                                                spec_unflat_chats(ns1),
                                                spec_unflat_users(ns2),
                                                spec_unflat_names(ns3),
                                            ) {
                                                (
                                                    Option::Some(chats),
                                                    Option::Some(users),
                                                    Option::Some(names),
                                                ) => Some(StoreModel { chats, users, names }),
                                                _ => None,
                                            }
                                        }
                                    },
                                }
                            }
                        },
                    }
                }
            },
        }
    }
}

/// A subrange that equals a concatenation splits into subranges of the parts.
proof fn lemma_split_concat(s: Seq<char>, off: int, a: Seq<char>, b: Seq<char>)
    requires
        0 <= off,
        off + a.len() + b.len() <= s.len(),
        s.subrange(off, off + a.len() + b.len()) == a + b,
    ensures
        s.subrange(off, off + a.len() as int) == a,
        s.subrange(off + a.len() as int, off + a.len() + b.len()) == b,
{
    let w = s.subrange(off, off + a.len() + b.len());
    assert(s.subrange(off, off + a.len() as int) =~= a) by {
        assert forall|i: int| 0 <= i < a.len() implies s.subrange(off, off + a.len() as int)[i]
            == a[i] by {
            assert(s[off + i] == w[i]);
            assert(w[i] == (a + b)[i]);
        }
    }
    assert(s.subrange(off + a.len() as int, off + a.len() + b.len()) =~= b) by {
        assert forall|i: int| 0 <= i < b.len() implies s.subrange(
            off + a.len() as int,
            off + a.len() + b.len(),
        )[i] == b[i] by {
            assert(s[off + a.len() + i] == w[a.len() + i]);
            assert(w[a.len() + i] == (a + b)[a.len() + i]);
        }
    }
}

/// Saving and reloading the store yields the same logical state: parsing
/// the encoded document gives the very model back. The name lengths must
/// fit the on-disk counter, as any real table's do.
#[verifier::rlimit(100)]
#[verifier::spinoff_prover]
pub proof fn lemma_document_round_trip(m: StoreModel)
    requires
        forall|i: int| 0 <= i < m.names.len() ==> (#[trigger] m.names[i]).0.len() <= u64::MAX,
    ensures
        spec_parse_document(spec_enc_document(m)) == Some(m),
{
    let s = spec_enc_document(m);
    let l1 = lit_chats();
    let c1 = spec_enc_u64_list(spec_flat_chats(m.chats));
    let l2 = lit_users();
    let c2 = spec_enc_u64_list(spec_flat_users(m.users));
    let l3 = lit_names();
    let c3 = spec_enc_u64_list(spec_flat_names(m.names));
    let close = seq!['}'];
    // the document as a right-nested concatenation, peeled one part at a time
    let r5 = c3 + close;
    let r4 = l3 + r5;
    let r3 = c2 + r4;
    let r2 = l2 + r3;
    let r1 = c1 + r2;
    assert(s =~= l1 + r1);
    let q1 = l1.len() as int;
    let q2 = q1 + c1.len();
    let q3 = q2 + l2.len();
    let q4 = q3 + c2.len();
    let q5 = q4 + l3.len();
    let q6 = q5 + c3.len();
    assert(s.len() == q6 + 1);
    assert(s.subrange(0, s.len() as int) =~= s);
    lemma_split_concat(s, 0, l1, r1);
    lemma_split_concat(s, q1, c1, r2);
    lemma_split_concat(s, q2, l2, r3);
    lemma_split_concat(s, q3, c2, r4);
    lemma_split_concat(s, q4, l3, r5);
    lemma_split_concat(s, q5, c3, close);
    assert(s[q6] == s.subrange(q6, q6 + 1)[0]);
    assert(s[q6] == '}');
    // the three lists parse back to the flat arrays
    lemma_parse_enc_u64_list(s, q1, spec_flat_chats(m.chats));
    lemma_parse_enc_u64_list(s, q3, spec_flat_users(m.users));
    lemma_parse_enc_u64_list(s, q5, spec_flat_names(m.names));
    // and the flat arrays decode to the model's tables
    lemma_unflat_flat_chats(m.chats);
    lemma_unflat_flat_users(m.users);
    lemma_unflat_flat_names(m.names);
    assert(spec_match_lit(s, 0, l1));
    assert(spec_match_lit(s, q2, l2));
    assert(spec_match_lit(s, q4, l3));
    assert(spec_parse_document(s) == Some(
        StoreModel { chats: m.chats, users: m.users, names: m.names },
    ));
    assert(StoreModel { chats: m.chats, users: m.users, names: m.names } =~= m);
}

/// Relies on char::from_u32: `Some` exactly for Unicode scalar values (at
/// most 0x10FFFF and not a surrogate), and the returned character carries
/// that value.
#[verifier::external_body]
fn char_from_u32(x: u32) -> (r: Option<char>)
    ensures
        r == if vstd::utf8::is_scalar(x) {
            Some(x as char)
        } else {
            Option::<char>::None
        },
{
    char::from_u32(x)
}

/// Relies on String's FromIterator over chars: collecting characters gives
/// the string of exactly those characters.
#[verifier::external_body]
fn chars_to_string(v: &Vec<char>) -> (r: String)
    ensures
        r@ == v@,
{
    v.iter().collect()
}

/// The characters of a string slice as a vector.
fn str_chars_vec(s: &str) -> (r: Vec<char>)
    ensures
        r@ == s@,
{
    let mut r: Vec<char> = Vec::new();
    for c in it: s.chars()
        invariant
            it.seq() == s@,
            r@ == it.seq().take(it.index() as int),
    {
        proof {
            assert(c == it.seq()[it.index() as int]);
            assert(it.seq().take(it.index() + 1) =~= it.seq().take(it.index() as int).push(
                it.seq()[it.index() as int],
            ));
        }
        r.push(c);
    }
    proof {
        assert(s@.take(s@.len() as int) =~= s@);
    }
    r
}

fn flat_chats_vec(chats: &Vec<(i64, AhCount)>) -> (r: Vec<u64>)
    ensures
        r@ =~= spec_flat_chats(chats@),
{
    let n = chats.len();
    let mut out: Vec<u64> = Vec::new();
    for i in 0..n
        invariant
            n == chats@.len(),
            out@.len() == i * 4,
            forall|j: int| 0 <= j < out@.len() ==> out@[j] == flat_chat_at(chats@, j),
    {
        let (cid, ah) = chats[i];
        let sign: u64 = if cid < 0 {
            1
        } else {
            0
        };
        let mag: u64 = if cid < 0 {
            (-(cid as i128)) as u64
        } else {
            cid as u64
        };
        out.push(sign);
        out.push(mag);
        out.push(ah.uid);
        out.push(ah.noa as u64);
        proof {
            lemma_stride4(i as int, 0);
            lemma_stride4(i as int, 1);
            lemma_stride4(i as int, 2);
            lemma_stride4(i as int, 3);
        }
    }
    proof {
        assert(out@ =~= spec_flat_chats(chats@));
    }
    out
}

fn flat_users_vec(users: &Vec<(u64, SpamState)>) -> (r: Vec<u64>)
    ensures
        r@ =~= spec_flat_users(users@),
{
    let n = users.len();
    let mut out: Vec<u64> = Vec::new();
    for i in 0..n
        invariant
            n == users@.len(),
            out@.len() == i * 5,
            forall|j: int| 0 <= j < out@.len() ==> out@[j] == flat_user_at(users@, j),
    {
        let (uid, st) = users[i];
        out.push(uid);
        match st {
            SpamState::Authentic => {
                out.push(0);
                out.push(0);
                out.push(0);
                out.push(0);
            },
            SpamState::MaybeSpam { score, create_ts_secs, update_ts_secs } => {
                out.push(1);
                out.push(score as u64);
                out.push(create_ts_secs);
                out.push(update_ts_secs);
            },
        }
        proof {
            lemma_stride5(i as int, 0);
            lemma_stride5(i as int, 1);
            lemma_stride5(i as int, 2);
            lemma_stride5(i as int, 3);
            lemma_stride5(i as int, 4);
        }
    }
    proof {
        assert(out@ =~= spec_flat_users(users@));
    }
    out
}

/// Appending one more table entry extends the flat form at the end.
proof fn lemma_flat_names_push(ts: Seq<(Seq<char>, Encounter)>, t: (Seq<char>, Encounter))
    ensures
        spec_flat_names(ts.push(t)) == spec_flat_names(ts) + spec_flat_name_entry(t),
    decreases ts.len(),
{
    if ts.len() == 0 {
        assert(ts.push(t)[0] == t);
        assert(ts.push(t).drop_first() =~= Seq::<(Seq<char>, Encounter)>::empty());
        assert(spec_flat_names(Seq::<(Seq<char>, Encounter)>::empty()) =~= Seq::<u64>::empty());
        assert(spec_flat_names(ts) =~= Seq::<u64>::empty());
        assert(spec_flat_names(ts.push(t)) =~= spec_flat_name_entry(t) + Seq::<u64>::empty());
        assert(spec_flat_names(ts) + spec_flat_name_entry(t) =~= spec_flat_name_entry(t)
            + Seq::<u64>::empty());
    } else {
        assert(ts.push(t).drop_first() =~= ts.drop_first().push(t));
        lemma_flat_names_push(ts.drop_first(), t);
        assert(ts.push(t)[0] == ts[0]);
        assert(spec_flat_name_entry(ts[0]) + (spec_flat_names(ts.drop_first())
            + spec_flat_name_entry(t)) =~= (spec_flat_name_entry(ts[0]) + spec_flat_names(
            ts.drop_first(),
        )) + spec_flat_name_entry(t));
    }
}

fn flat_names_vec(names: &Vec<(String, Encounter)>) -> (r: Vec<u64>)
    ensures
        r@ =~= spec_flat_names(names@.map_values(|p: (String, Encounter)| (p.0@, p.1))),
{
    let ghost m = names@.map_values(|p: (String, Encounter)| (p.0@, p.1));
    let n = names.len();
    let mut out: Vec<u64> = Vec::new();
    for i in 0..n
        invariant
            n == names@.len(),
            m == names@.map_values(|p: (String, Encounter)| (p.0@, p.1)),
            out@ =~= spec_flat_names(m.take(i as int)),
    {
        let ghost before = out@;
        let cv = str_chars_vec(names[i].0.as_str());
        let e = names[i].1;
        out.push(cv.len() as u64);
        let cn = cv.len();
        for j in 0..cn
            invariant
                cn == cv@.len(),
                out@ =~= before + seq![cv@.len() as u64] + Seq::new(j as nat, |k: int| (cv@[k]
                    as u32) as u64),
        {
            out.push((cv[j] as u32) as u64);
            proof {
                assert(Seq::new((j + 1) as nat, |k: int| (cv@[k] as u32) as u64) =~= Seq::new(
                    j as nat,
                    |k: int| (cv@[k] as u32) as u64,
                ).push((cv@[j as int] as u32) as u64));
            }
        }
        out.push(e.count as u64);
        out.push(e.first_seen_ts_secs);
        out.push(e.last_seen_ts_secs);
        proof {
            assert(m[i as int] == (names@[i as int].0@, names@[i as int].1));
            assert(Seq::new(cv@.len(), |k: int| (cv@[k] as u32) as u64) =~= Seq::new(
                m[i as int].0.len(),
                |k: int| (m[i as int].0[k] as u32) as u64,
            ));
            assert(out@ =~= before + spec_flat_name_entry(m[i as int]));
            assert(m.take(i + 1) =~= m.take(i as int).push(m[i as int]));
            lemma_flat_names_push(m.take(i as int), m[i as int]);
        }
    }
    proof {
        assert(m.take(n as int) =~= m);
    }
    out
}

fn unflat_chats_vec(ns: &Vec<u64>) -> (r: Option<Vec<(i64, AhCount)>>)
    ensures
        ({
            match r {
                Option::Some(v) => spec_unflat_chats(ns@) == Some(v@),
                Option::None => spec_unflat_chats(ns@) is None,
            }
        }),
{
    let n = ns.len();
    if n % 4 != 0 {
        return None;
    }
    let cnt = n / 4;
    proof {
        vstd::arithmetic::div_mod::lemma_fundamental_div_mod(n as int, 4int);
    }
    let mut out: Vec<(i64, AhCount)> = Vec::new();
    let mut i: usize = 0;
    while i < cnt
        invariant
            n == ns@.len(),
            n as int % 4 == 0,
            cnt == n as int / 4,
            n == cnt * 4,
            i <= cnt,
            out@.len() == i,
            forall|j: int| 0 <= j < i ==> #[trigger] chat_entry_ok(ns@, j),
            forall|j: int| 0 <= j < i ==> out@[j] == #[trigger] chat_entry(ns@, j),
        decreases cnt - i,
    {
        proof {
            assert(4 * (i as int) + 4 <= 4 * (cnt as int)) by (nonlinear_arith)
                requires
                    i < cnt,
            ;
            assert(cnt * 4 == 4 * (cnt as int)) by (nonlinear_arith);
        }
        let base = 4 * i;
        let sign = ns[base];
        let mag = ns[base + 1];
        let uid = ns[base + 2];
        let noa = ns[base + 3];
        let ok = (sign == 0 || sign == 1) && (sign != 0 || mag <= i64::MAX as u64) && (sign != 1
            || (1 <= mag && mag <= (i64::MAX as u64) + 1)) && noa <= u32::MAX as u64;
        if !ok {
            proof {
                assert(!chat_entry_ok(ns@, i as int));
            }
            return None;
        }
        let cid: i64 = if sign == 1 {
            (-(mag as i128)) as i64
        } else {
            mag as i64
        };
        out.push((cid, AhCount { uid, noa: noa as u32 }));
        proof {
            assert(chat_entry_ok(ns@, i as int));
            assert(out@[i as int] == chat_entry(ns@, i as int));
        }
        i += 1;
    }
    proof {
        assert(out@ =~= Seq::new((ns@.len() / 4) as nat, |i: int| chat_entry(ns@, i)));
    }
    Some(out)
}

fn unflat_users_vec(ns: &Vec<u64>) -> (r: Option<Vec<(u64, SpamState)>>)
    ensures
        ({
            match r {
                Option::Some(v) => spec_unflat_users(ns@) == Some(v@),
                Option::None => spec_unflat_users(ns@) is None,
            }
        }),
{
    let n = ns.len();
    if n % 5 != 0 {
        return None;
    }
    let cnt = n / 5;
    proof {
        vstd::arithmetic::div_mod::lemma_fundamental_div_mod(n as int, 5int);
    }
    let mut out: Vec<(u64, SpamState)> = Vec::new();
    let mut i: usize = 0;
    while i < cnt
        invariant
            n == ns@.len(),
            n as int % 5 == 0,
            cnt == n as int / 5,
            n == cnt * 5,
            i <= cnt,
            out@.len() == i,
            forall|j: int| 0 <= j < i ==> #[trigger] user_entry_ok(ns@, j),
            forall|j: int| 0 <= j < i ==> out@[j] == #[trigger] user_entry(ns@, j),
        decreases cnt - i,
    {
        proof {
            assert(5 * (i as int) + 5 <= 5 * (cnt as int)) by (nonlinear_arith)
                requires
                    i < cnt,
            ;
            assert(cnt * 5 == 5 * (cnt as int)) by (nonlinear_arith);
        }
        let base = 5 * i;
        let uid = ns[base];
        let tag = ns[base + 1];
        let a = ns[base + 2];
        let b = ns[base + 3];
        let c = ns[base + 4];
        let ok = (tag == 0 || tag == 1) && (tag != 0 || (a == 0 && b == 0 && c == 0)) && (tag != 1
            || a <= u8::MAX as u64);
        if !ok {
            proof {
                assert(!user_entry_ok(ns@, i as int));
            }
            return None;
        }
        let st = if tag == 0 {
            SpamState::Authentic
        } else {
            SpamState::MaybeSpam { score: a as u8, create_ts_secs: b, update_ts_secs: c }
        };
        out.push((uid, st));
        proof {
            assert(user_entry_ok(ns@, i as int));
            assert(out@[i as int] == user_entry(ns@, i as int));
        }
        i += 1;
    }
    proof {
        assert(out@ =~= Seq::new((ns@.len() / 5) as nat, |i: int| user_entry(ns@, i)));
    }
    Some(out)
}

fn unflat_names_vec(ns: &Vec<u64>) -> (r: Option<Vec<(String, Encounter)>>)
    ensures
        ({
            match r {
                Option::Some(v) => spec_unflat_names(ns@) == Some(
                    v@.map_values(|p: (String, Encounter)| (p.0@, p.1)),
                ),
                Option::None => spec_unflat_names(ns@) is None,
            }
        }),
{
    let n = ns.len();
    let mut cur: usize = 0;
    let mut out: Vec<(String, Encounter)> = Vec::new();
    proof {
        assert(ns@.skip(0) =~= ns@);
        assert(out@.map_values(|p: (String, Encounter)| (p.0@, p.1)) =~= Seq::<(
            Seq<char>,
            Encounter,
        )>::empty());
        if spec_unflat_names(ns@) is Some {
            assert(Seq::<(Seq<char>, Encounter)>::empty() + spec_unflat_names(ns@).unwrap()
                =~= spec_unflat_names(ns@).unwrap());
        }
    }
    while cur < n
        invariant
            cur <= n,
            n == ns@.len(),
            (spec_unflat_names(ns@.skip(cur as int)) is Some) ==> spec_unflat_names(ns@) == Some(
                out@.map_values(|p: (String, Encounter)| (p.0@, p.1)) + spec_unflat_names(
                    ns@.skip(cur as int),
                ).unwrap(),
            ),
            (spec_unflat_names(ns@.skip(cur as int)) is None) ==> spec_unflat_names(ns@) is None,
        decreases n - cur,
    {
        let ghost suffix = ns@.skip(cur as int);
        let ghost outv = out@.map_values(|p: (String, Encounter)| (p.0@, p.1));
        let rem = n - cur;
        let l64 = ns[cur];
        proof {
            assert(suffix[0] == ns@[cur as int]);
            assert(suffix.len() == rem);
        }
        if rem < 4 || l64 > (rem - 4) as u64 {
            proof {
                assert(suffix.len() < l64 as int + 4);
                assert(spec_unflat_names(suffix) is None);
            }
            return None;
        }
        let l = l64 as usize;
        let mut cv: Vec<char> = Vec::new();
        for j in 0..l
            invariant
                n == ns@.len(),
                cur + l + 4 <= n,
                l == l64 as int,
                l64 == ns@[cur as int],
                suffix == ns@.skip(cur as int),
                cv@.len() == j,
                forall|t: int| 0 <= t < j ==> valid_scalar_u64(#[trigger] suffix[1 + t]),
                forall|t: int| 0 <= t < j ==> cv@[t] == (#[trigger] suffix[1 + t] as u32) as char,
                (spec_unflat_names(ns@.skip(cur as int)) is None) ==> spec_unflat_names(ns@)
                    is None,
        {
            let x = ns[cur + 1 + j];
            proof {
                assert(suffix[1 + j as int] == ns@[cur + 1 + j as int]);
            }
            if x > 0x10FFFF {
                proof {
                    assert(!valid_scalar_u64(suffix[1 + j as int]));
                    assert(spec_unflat_names(suffix) is None);
                }
                return None;
            }
            match char_from_u32(x as u32) {
                Some(c) => {
                    cv.push(c);
                },
                None => {
                    proof {
                        assert(!valid_scalar_u64(suffix[1 + j as int]));
                        assert(spec_unflat_names(suffix) is None);
                    }
                    return None;
                },
            }
        }
        let count64 = ns[cur + 1 + l];
        proof {
            assert(suffix[1 + l as int] == ns@[cur + 1 + l as int]);
            assert(suffix[2 + l as int] == ns@[cur + 2 + l as int]);
            assert(suffix[3 + l as int] == ns@[cur + 3 + l as int]);
        }
        if count64 > usize::MAX as u64 {
            proof {
                assert(spec_unflat_names(suffix) is None);
            }
            return None;
        }
        let e = Encounter {
            count: count64 as usize,
            first_seen_ts_secs: ns[cur + 2 + l],
            last_seen_ts_secs: ns[cur + 3 + l],
        };
        let name = chars_to_string(&cv);
        out.push((name, e));
        proof {
            assert(cv@ =~= Seq::new(l64 as nat, |i: int| (suffix[1 + i] as u32) as char));
            assert(suffix.skip(l64 as int + 4) =~= ns@.skip(cur + l + 4));
            assert(spec_unflat_names(suffix) == match spec_unflat_names(ns@.skip(cur + l + 4)) {
                Option::None => Option::<Seq<(Seq<char>, Encounter)>>::None,
                Option::Some(tail) => Some(seq![(cv@, e)] + tail),
            });
            assert(out@.map_values(|p: (String, Encounter)| (p.0@, p.1)) =~= outv.push((cv@, e)));
            if spec_unflat_names(ns@.skip(cur + l + 4)) is Some {
                assert(outv + (seq![(cv@, e)] + spec_unflat_names(ns@.skip(cur + l + 4)).unwrap())
                    =~= outv.push((cv@, e)) + spec_unflat_names(ns@.skip(cur + l + 4)).unwrap());
            }
        }
        cur = cur + l + 4;
    }
    proof {
        assert(ns@.skip(cur as int) =~= Seq::<u64>::empty());
        assert(spec_unflat_names(ns@.skip(cur as int)) == Some(
            Seq::<(Seq<char>, Encounter)>::empty(),
        ));
        assert(out@.map_values(|p: (String, Encounter)| (p.0@, p.1)) + Seq::<(
            Seq<char>,
            Encounter,
        )>::empty() =~= out@.map_values(|p: (String, Encounter)| (p.0@, p.1)));
    }
    Some(out)
}

fn lit_chats_vec() -> (r: Vec<char>)
    ensures
        r@ =~= lit_chats(),
{
    let r = vec!['{', '"', 'c', 'h', 'a', 't', 's', '"', ':'];
    proof {
        assert(r@ =~= lit_chats());
    }
    r
}

fn lit_users_vec() -> (r: Vec<char>)
    ensures
        r@ =~= lit_users(),
{
    let r = vec![',', '"', 'u', 's', 'e', 'r', 's', '"', ':'];
    proof {
        assert(r@ =~= lit_users());
    }
    r
}

fn lit_names_vec() -> (r: Vec<char>)
    ensures
        r@ =~= lit_names(),
{
    let r = vec![',', '"', 's', 'p', 'a', 'm', '_', 'n', 'a', 'm', 'e', 's', '"', ':'];
    proof {
        assert(r@ =~= lit_names());
    }
    r
}

fn append_chars(out: &mut Vec<char>, src: &Vec<char>)
    ensures
        final(out)@ =~= old(out)@ + src@,
{
    let n = src.len();
    for i in 0..n
        invariant
            n == src@.len(),
            out@ =~= old(out)@ + src@.take(i as int),
    {
        out.push(src[i]);
        proof {
            assert(src@.take(i + 1) =~= src@.take(i as int).push(src@[i as int]));
        }
    }
    proof {
        assert(src@.take(n as int) =~= src@);
    }
}

/// Whether `lit` stands at `pos` in `s`.
fn match_lit(s: &Vec<char>, pos: usize, lit: &Vec<char>) -> (r: bool)
    ensures
        r == spec_match_lit(s@, pos as int, lit@),
{
    let m = lit.len();
    let slen = s.len();
    if slen < m || pos > slen - m {
        return false;
    }
    for i in 0..m
        invariant
            m == lit@.len(),
            slen == s@.len(),
            pos + m <= slen,
            forall|k: int| 0 <= k < i ==> s@[pos + k] == lit@[k],
    {
        if s[pos + i] != lit[i] {
            proof {
                assert(s@.subrange(pos as int, pos + lit@.len() as int)[i as int] != lit@[
                    i as int]);
            }
            return false;
        }
    }
    proof {
        assert(s@.subrange(pos as int, pos + lit@.len() as int) =~= lit@);
    }
    true
}

/// A successful list parse moves the position forward, at most to the end.
proof fn lemma_parse_items_rec_bounds(s: Seq<char>, pos: int, acc: Seq<u64>)
    requires
        0 <= pos,
    ensures
        match spec_parse_items_rec(s, pos, acc) {
            Option::Some((_, p)) => pos < p <= s.len(),
            Option::None => true,
        },
    decreases s.len() - pos,
{
    lemma_parse_u64_bounds(s, pos);
    match spec_parse_u64(s, pos) {
        Option::None => {},
        Option::Some((n, p)) => {
            if pos < p <= s.len() {
                if p < s.len() && s[p] == ',' {
                    lemma_parse_items_rec_bounds(s, p + 1, acc.push(n));
                }
            }
        },
    }
}

proof fn lemma_parse_u64_list_bounds(s: Seq<char>, pos: int)
    requires
        0 <= pos,
    ensures
        match spec_parse_u64_list(s, pos) {
            Option::Some((_, p)) => pos < p <= s.len(),
            Option::None => true,
        },
{
    if 0 <= pos < s.len() && s[pos] == '[' {
        if !(pos + 1 < s.len() && s[pos + 1] == ']') {
            lemma_parse_items_rec_bounds(s, pos + 1, Seq::empty());
        }
    }
}

/// Encode a snapshot as the state document.
pub fn encode_document(data: &Data) -> (out: Vec<char>)
    ensures
        out@ =~= spec_enc_document(
            StoreModel { chats: data.chats@, users: data.users@, names: data.spam_names@ },
        ),
{
    let mut out: Vec<char> = Vec::new();
    let lc = lit_chats_vec();
    append_chars(&mut out, &lc);
    let fc = flat_chats_vec(&data.chats);
    encode_u64_list(&fc, &mut out);
    let lu = lit_users_vec();
    append_chars(&mut out, &lu);
    let fu = flat_users_vec(&data.users);
    encode_u64_list(&fu, &mut out);
    let ln = lit_names_vec();
    append_chars(&mut out, &ln);
    let fn_ = flat_names_vec(&data.spam_names.0);
    encode_u64_list(&fn_, &mut out);
    out.push('}');
    proof {
        assert(data.spam_names@ == data.spam_names.0@.map_values(
            |p: (String, Encounter)| (p.0@, p.1),
        ));
        assert(out@ =~= spec_enc_document(
            StoreModel { chats: data.chats@, users: data.users@, names: data.spam_names@ },
        ));
    }
    out
}

/// Parse a state document back into a snapshot; anything but the exact
/// shape the encoder produces is rejected.
pub fn parse_document(s: &Vec<char>) -> (r: Option<Data>)
    ensures
        ({
            match r {
                Option::Some(d) => spec_parse_document(s@) == Some(
                    StoreModel { chats: d.chats@, users: d.users@, names: d.spam_names@ },
                ),
                Option::None => spec_parse_document(s@) is None,
            }
        }),
{
    let slen = s.len();
    let lc = lit_chats_vec();
    if !match_lit(s, 0, &lc) {
        return None;
    }
    let (ns1, p1) = match parse_u64_list(s, lc.len()) {
        Some(x) => x,
        None => {
            return None;
        },
    };
    proof {
        lemma_parse_u64_list_bounds(s@, lc@.len() as int);
    }
    let lu = lit_users_vec();
    if !match_lit(s, p1, &lu) {
        return None;
    }
    proof {
        assert(p1 + lu@.len() <= slen);
    }
    let (ns2, p2) = match parse_u64_list(s, p1 + lu.len()) {
        Some(x) => x,
        None => {
            return None;
        },
    };
    proof {
        lemma_parse_u64_list_bounds(s@, p1 + lu@.len() as int);
    }
    let ln = lit_names_vec();
    if !match_lit(s, p2, &ln) {
        return None;
    }
    proof {
        assert(p2 + ln@.len() <= slen);
    }
    let (ns3, p3) = match parse_u64_list(s, p2 + ln.len()) {
        Some(x) => x,
        None => {
            return None;
        },
    };
    proof {
        lemma_parse_u64_list_bounds(s@, p2 + ln@.len() as int);
    }
    if !(p3 < s.len() && s[p3] == '}' && p3 + 1 == s.len()) {
        return None;
    }
    let chats = match unflat_chats_vec(&ns1) {
        Some(v) => v,
        None => {
            return None;
        },
    };
    let users = match unflat_users_vec(&ns2) {
        Some(v) => v,
        None => {
            return None;
        },
    };
    let names = match unflat_names_vec(&ns3) {
        Some(v) => v,
        None => {
            return None;
        },
    };
    Some(Data { chats, users, spam_names: crate::antispam::spam_names::SpamNames(names) })
}

/// Key uniqueness of the decoded snapshot, the store's well-formedness.
pub open spec fn spec_model_wf(m: StoreModel) -> bool {
    &&& crate::storage::unique_keys(m.users)
    &&& crate::storage::unique_keys(m.chats)
    &&& forall|i: int, j: int| 0 <= i < j < m.names.len() ==> m.names[i].0 != m.names[j].0
}

fn unique_user_keys(v: &Vec<(u64, SpamState)>) -> (r: bool)
    ensures
        r == crate::storage::unique_keys(v@),
{
    let n = v.len();
    for i in 0..n
        invariant
            n == v@.len(),
            forall|a: int, b: int| 0 <= a < b < n && a < i ==> v@[a].0 != v@[b].0,
    {
        for j in (i + 1)..n
            invariant
                n == v@.len(),
                i < n,
                forall|a: int, b: int| 0 <= a < b < n && a < i ==> v@[a].0 != v@[b].0,
                forall|b: int| i < b < j ==> v@[i as int].0 != v@[b].0,
        {
            if v[j].0 == v[i].0 {
                return false;
            }
        }
    }
    true
}

fn unique_chat_keys(v: &Vec<(i64, AhCount)>) -> (r: bool)
    ensures
        r == crate::storage::unique_keys(v@),
{
    let n = v.len();
    for i in 0..n
        invariant
            n == v@.len(),
            forall|a: int, b: int| 0 <= a < b < n && a < i ==> v@[a].0 != v@[b].0,
    {
        for j in (i + 1)..n
            invariant
                n == v@.len(),
                i < n,
                forall|a: int, b: int| 0 <= a < b < n && a < i ==> v@[a].0 != v@[b].0,
                forall|b: int| i < b < j ==> v@[i as int].0 != v@[b].0,
        {
            if v[j].0 == v[i].0 {
                return false;
            }
        }
    }
    true
}

fn unique_names(v: &Vec<(String, Encounter)>) -> (r: bool)
    ensures
        r == (forall|i: int, j: int|
            0 <= i < j < v@.len() ==> v@[i].0@ != v@[j].0@),
{
    let n = v.len();
    for i in 0..n
        invariant
            n == v@.len(),
            forall|a: int, b: int| 0 <= a < b < n && a < i ==> v@[a].0@ != v@[b].0@,
    {
        for j in (i + 1)..n
            invariant
                n == v@.len(),
                i < n,
                forall|a: int, b: int| 0 <= a < b < n && a < i ==> v@[a].0@ != v@[b].0@,
                forall|b: int| i < b < j ==> v@[i as int].0@ != v@[b].0@,
        {
            if crate::antispam::spam_names::str_eq(v[j].0.as_str(), v[i].0.as_str()) {
                return false;
            }
        }
    }
    true
}

impl Storage {
    /// The state document of the current snapshot.
    pub fn save_document(&self) -> (out: Vec<char>)
        ensures
            out@ =~= spec_enc_document(self@),
    {
        encode_document(&self.data)
    }

    /// Load a store from a state document. The document must parse and the
    /// decoded snapshot must have unique keys throughout; anything else is
    /// rejected.
    pub fn from_document(doc: &Vec<char>) -> (r: Option<Storage>)
        ensures
            ({
                match r {
                    Option::Some(st) => {
                        &&& st.wf()
                        &&& spec_parse_document(doc@) == Some(st@)
                    },
                    Option::None => spec_parse_document(doc@) is None || !spec_model_wf(
                        spec_parse_document(doc@).unwrap(),
                    ),
                }
            }),
    {
        let data = match parse_document(doc) {
            Some(d) => d,
            None => {
                return None;
            },
        };
        if !unique_chat_keys(&data.chats) {
            return None;
        }
        if !unique_user_keys(&data.users) {
            return None;
        }
        if !unique_names(&data.spam_names.0) {
            proof {
                let m = spec_parse_document(doc@).unwrap();
                let v = data.spam_names.0@;
                let (i, j) = choose|i: int, j: int|
                    0 <= i < j < v.len() && v[i].0@ == v[j].0@;
                assert(m.names[i].0 == v[i].0@);
                assert(m.names[j].0 == v[j].0@);
                assert(!spec_model_wf(m));
            }
            return None;
        }
        proof {
            assert(data.spam_names.wf());
        }
        Some(Storage { data })
    }
}

} // verus!
