//! The rigctl-style control protocol: one line in, one reply out. The
//! handler parses the command, updates the shared TX/frequency state,
//! stages CAT commands on the queue, and for TX toggles writes to the radio
//! link directly (the one deliberate bypass of the queue, so that TX entry
//! is synchronous with the bridge's next look at the TX flag).
//!
//! The whole protocol is specified by the ghost dispatch [`rigctl_effect`];
//! the executable handler is proved to realize it.

use vstd::prelude::*;
use crate::cat::all_digits;
use crate::cat::bytes_eq;
use crate::cat::dec_rep;
use crate::cat::digit_run_len;
use crate::cat::digits_value;
use crate::cat::fa_set_cmd;
use crate::cat::fa_set_command;
use crate::cat::is_digit;
use crate::cat::lemma_dec_rep_digits;
use crate::cat::lemma_digit_run_len_is;
use crate::cat::lemma_digits_value_nonneg;
use crate::cat::md_cmd;
use crate::cat::tx0_cmd;
use crate::cat::u64_to_dec;
use crate::cat::CatQueue;
use crate::cat::cmd_set_mode;
use crate::state::SharedState;
use crate::trusdx::bytes_ev;
use crate::trusdx::RadioLink;

verus! {

// ---------------------------------------------------------------------------
// Whitespace and tokens.
// ---------------------------------------------------------------------------
/// ASCII whitespace, as line trimming and token splitting see it.
pub open spec fn is_ws(b: u8) -> bool {
    b == 32 || b == 9 || b == 10 || b == 13
}

/// Length of the leading whitespace run.
pub open spec fn ws_run_len(s: Seq<u8>) -> int
    decreases s.len(),
{
    if s.len() == 0 || !is_ws(s[0]) {
        0
    } else {
        1 + ws_run_len(s.skip(1))
    }
}

/// Length of the leading non-whitespace run: the first token.
pub open spec fn token_len(s: Seq<u8>) -> int
    decreases s.len(),
{
    if s.len() == 0 || is_ws(s[0]) {
        0
    } else {
        1 + token_len(s.skip(1))
    }
}

/// Length of the trailing whitespace run.
pub open spec fn ws_tail_len(s: Seq<u8>) -> int
    decreases s.len(),
{
    if s.len() == 0 || !is_ws(s.last()) {
        0
    } else {
        1 + ws_tail_len(s.drop_last())
    }
}

pub proof fn lemma_ws_run_len_is(s: Seq<u8>, n: int)
    requires
        0 <= n <= s.len(),
        forall|i: int| 0 <= i < n ==> is_ws(#[trigger] s[i]),
        n < s.len() ==> !is_ws(s[n]),
    ensures
        ws_run_len(s) == n,
    decreases s.len(),
{
    if n == 0 {
    } else {
        assert(forall|i: int| 0 <= i < s.len() - 1 ==> #[trigger] s.skip(1)[i] == s[i + 1]);
        lemma_ws_run_len_is(s.skip(1), n - 1);
    }
}

pub proof fn lemma_token_len_is(s: Seq<u8>, n: int)
    requires
        0 <= n <= s.len(),
        forall|i: int| 0 <= i < n ==> !is_ws(#[trigger] s[i]),
        n < s.len() ==> is_ws(s[n]),
    ensures
        token_len(s) == n,
    decreases s.len(),
{
    if n == 0 {
    } else {
        assert(forall|i: int| 0 <= i < s.len() - 1 ==> #[trigger] s.skip(1)[i] == s[i + 1]);
        lemma_token_len_is(s.skip(1), n - 1);
    }
}

pub proof fn lemma_ws_tail_len_is(s: Seq<u8>, n: int)
    requires
        0 <= n <= s.len(),
        forall|j: int| s.len() - n <= j < s.len() ==> is_ws(#[trigger] s[j]),
        n < s.len() ==> !is_ws(s[s.len() - n - 1]),
    ensures
        ws_tail_len(s) == n,
    decreases s.len(),
{
    if n == 0 {
    } else {
        assert(is_ws(s.last()));
        assert(forall|j: int| 0 <= j < s.len() - 1 ==> #[trigger] s.drop_last()[j] == s[j]);
        lemma_ws_tail_len_is(s.drop_last(), n - 1);
    }
}

/// A line with its surrounding whitespace removed.
pub open spec fn trim_spec(s: Seq<u8>) -> Seq<u8> {
    let t = s.skip(ws_run_len(s));
    t.take(t.len() - ws_tail_len(t))
}

/// The second whitespace-separated token of a trimmed command, if present.
pub open spec fn second_token_spec(cmd: Seq<u8>) -> Option<Seq<u8>> {
    let rest = cmd.skip(token_len(cmd));
    let rest2 = rest.skip(ws_run_len(rest));
    if token_len(rest2) > 0 {
        Some(rest2.take(token_len(rest2)))
    } else {
        None
    }
}

/// Whether `b` is an ASCII whitespace byte.
fn is_ws_byte(b: u8) -> (r: bool)
    ensures
        r == is_ws(b),
{
    b == 32 || b == 9 || b == 10 || b == 13
}

/// Trim surrounding whitespace from a line.
pub fn trim_bytes(line: &Vec<u8>) -> (cmd: Vec<u8>)
    ensures
        cmd@ == trim_spec(line@),
{
    let mut a: usize = 0;
    while a < line.len() && is_ws_byte(line[a])
        invariant
            a <= line@.len(),
            forall|j: int| 0 <= j < a ==> is_ws(#[trigger] line@[j]),
        decreases line@.len() - a,
    {
        a = a + 1;
    }
    proof {
        lemma_ws_run_len_is(line@, a as int);
    }
    let mut b: usize = line.len();
    while b > a && is_ws_byte(line[b - 1])
        invariant
            a <= b <= line@.len(),
            forall|j: int| b <= j < line@.len() ==> is_ws(#[trigger] line@[j]),
        decreases b,
    {
        b = b - 1;
    }
    let ghost t = line@.skip(a as int);
    proof {
        assert(forall|j: int| 0 <= j < t.len() ==> #[trigger] t[j] == line@[a + j]);
        lemma_ws_tail_len_is(t, line@.len() - b);
    }
    let mut cmd: Vec<u8> = Vec::new();
    let mut i: usize = a;
    while i < b
        invariant
            a <= i <= b <= line@.len(),
            cmd@.len() == i - a,
            forall|j: int| 0 <= j < cmd@.len() ==> #[trigger] cmd@[j] == line@[a + j],
        decreases b - i,
    {
        cmd.push(line[i]);
        i = i + 1;
    }
    proof {
        assert(cmd@ =~= trim_spec(line@));
    }
    cmd
}

/// Extract the second whitespace-separated token of a command, if present.
pub fn second_token(cmd: &Vec<u8>) -> (r: Option<Vec<u8>>)
    ensures
        match (r, second_token_spec(cmd@)) {
            (Some(v), Some(t)) => v@ == t,
            (None, None) => true,
            _ => false,
        },
{
    let mut i: usize = 0;
    while i < cmd.len() && !is_ws_byte(cmd[i])
        invariant
            i <= cmd@.len(),
            forall|j: int| 0 <= j < i ==> !is_ws(#[trigger] cmd@[j]),
        decreases cmd@.len() - i,
    {
        i = i + 1;
    }
    proof {
        lemma_token_len_is(cmd@, i as int);
    }
    let ghost rest = cmd@.skip(i as int);
    let mut k: usize = i;
    while k < cmd.len() && is_ws_byte(cmd[k])
        invariant
            i <= k <= cmd@.len(),
            forall|j: int| i <= j < k ==> is_ws(#[trigger] cmd@[j]),
        decreases cmd@.len() - k,
    {
        k = k + 1;
    }
    proof {
        assert(forall|j: int| 0 <= j < rest.len() ==> #[trigger] rest[j] == cmd@[i + j]);
        lemma_ws_run_len_is(rest, k - i);
    }
    let ghost rest2 = rest.skip(k - i);
    let mut e: usize = k;
    while e < cmd.len() && !is_ws_byte(cmd[e])
        invariant
            k <= e <= cmd@.len(),
            forall|j: int| k <= j < e ==> !is_ws(#[trigger] cmd@[j]),
        decreases cmd@.len() - e,
    {
        e = e + 1;
    }
    proof {
        assert(forall|j: int| 0 <= j < rest2.len() ==> #[trigger] rest2[j] == cmd@[k + j]);
        lemma_token_len_is(rest2, e - k);
    }
    if e == k {
        return None;
    }
    let mut tok: Vec<u8> = Vec::new();
    let mut j: usize = k;
    while j < e
        invariant
            k <= j <= e <= cmd@.len(),
            tok@.len() == j - k,
            forall|m: int| 0 <= m < tok@.len() ==> #[trigger] tok@[m] == cmd@[k + m],
        decreases e - j,
    {
        tok.push(cmd[j]);
        j = j + 1;
    }
    proof {
        assert(tok@ =~= rest2.take(e - k));
    }
    Some(tok)
}

// ---------------------------------------------------------------------------
// Frequency and TX argument parsing.
// ---------------------------------------------------------------------------
/// The frequency a set-frequency argument denotes: a plain digit string, or
/// a decimal fraction rounded half away from zero; anything else (or a
/// value beyond 64 bits) is rejected.
pub open spec fn freq_of_token(tok: Seq<u8>) -> Option<u64> {
    let k = digit_run_len(tok);
    if tok.len() > 0 && k == tok.len() {
        if digits_value(tok) <= u64::MAX {
            Some(digits_value(tok) as u64)
        } else {
            None
        }
    } else if tok.len() >= 2 && tok[k] == 46 && all_digits(tok.skip(k + 1)) {
        let up: int = if k + 1 < tok.len() && tok[k + 1] >= 53 {
            1
        } else {
            0
        };
        if digits_value(tok.take(k)) + up <= u64::MAX {
            Some((digits_value(tok.take(k)) + up) as u64)
        } else {
            None
        }
    } else {
        None
    }
}

/// The value of a signed 32-bit integer argument, if the token is one.
pub open spec fn i32_token_value(tok: Seq<u8>) -> Option<int> {
    if tok.len() == 0 {
        None
    } else {
        let neg = tok[0] == 45;
        let digs = if tok[0] == 45 || tok[0] == 43 {
            tok.skip(1)
        } else {
            tok
        };
        if digs.len() > 0 && all_digits(digs) {
            let v: int = if neg {
                -digits_value(digs)
            } else {
                digits_value(digs)
            };
            if -0x8000_0000 <= v <= 0x7fff_ffff {
                Some(v)
            } else {
                None
            }
        } else {
            None
        }
    }
}

/// The TX intent a set-TX argument denotes: a non-zero 32-bit integer asks
/// for transmit; zero or an unparsable token asks for receive.
pub open spec fn tx_of_token(tok: Seq<u8>) -> bool {
    match i32_token_value(tok) {
        Some(v) => v != 0,
        None => false,
    }
}

/// Scan a digit run from `start`, returning its end and its value unless
/// the value exceeds 64 bits.
fn scan_digits(tok: &Vec<u8>, start: usize) -> (r: (usize, Option<u64>))
    requires
        start <= tok@.len(),
    ensures
        start <= r.0 <= tok@.len(),
        forall|j: int| start <= j < r.0 ==> is_digit(#[trigger] tok@[j]),
        r.0 < tok@.len() ==> !is_digit(tok@[r.0 as int]),
        match r.1 {
            Some(v) => v == digits_value(tok@.subrange(start as int, r.0 as int)),
            None => digits_value(tok@.subrange(start as int, r.0 as int)) > u64::MAX,
        },
{
    let ghost tail = tok@.skip(start as int);
    let mut i: usize = start;
    let mut val: u64 = 0;
    let mut overflow = false;
    proof {
        assert(tok@.subrange(start as int, start as int) =~= Seq::<u8>::empty());
    }
    while i < tok.len() && 48 <= tok[i] && tok[i] <= 57
        invariant
            start <= i <= tok@.len(),
            forall|j: int| start <= j < i ==> is_digit(#[trigger] tok@[j]),
            !overflow ==> val == digits_value(tok@.subrange(start as int, i as int)),
            overflow ==> digits_value(tok@.subrange(start as int, i as int)) > u64::MAX,
        decreases tok@.len() - i,
    {
        let d: u8 = tok[i] - 48;
        let ghost prefix = tok@.subrange(start as int, i as int);
        proof {
            assert(all_digits(prefix));
            lemma_digits_value_nonneg(prefix);
            assert(tok@.subrange(start as int, i + 1).drop_last() =~= prefix);
            assert(tok@.subrange(start as int, i + 1).last() == tok@[i as int]);
            assert(digits_value(tok@.subrange(start as int, i + 1)) == digits_value(prefix) * 10
                + (tok@[i as int] - 48));
        }
        if !overflow {
            if val > (u64::MAX - (d as u64)) / 10 {
                overflow = true;
                proof {
                    let vv = val as int;
                    let dd = d as int;
                    let mx = u64::MAX as int;
                    assert(mx - dd == 10 * ((mx - dd) / 10) + (mx - dd) % 10);
                    assert(vv * 10 + dd > mx);
                }
            } else {
                proof {
                    let vv = val as int;
                    let dd = d as int;
                    let mx = u64::MAX as int;
                    assert(mx - dd == 10 * ((mx - dd) / 10) + (mx - dd) % 10);
                    assert(vv * 10 + dd <= mx);
                }
                val = val * 10 + (d as u64);
            }
        } else {
            proof {
                let v = digits_value(prefix);
                assert(v * 10 + (tok@[i as int] - 48) > u64::MAX) by (nonlinear_arith)
                    requires
                        v > u64::MAX,
                        tok@[i as int] - 48 >= 0,
                ;
            }
        }
        i = i + 1;
    }
    if overflow {
        (i, None)
    } else {
        (i, Some(val))
    }
}

/// Parse a set-frequency argument.
pub fn parse_freq_token(tok: &Vec<u8>) -> (r: Option<u64>)
    ensures
        r == freq_of_token(tok@),
{
    let (k, ival) = scan_digits(tok, 0);
    proof {
        lemma_digit_run_len_is(tok@, k as int);
        assert(tok@.subrange(0, k as int) =~= tok@.take(k as int));
    }
    if k == tok.len() {
        if k == 0 {
            return None;
        }
        proof {
            assert(tok@.take(k as int) =~= tok@);
        }
        return ival;
    }
    // A decimal fraction: digits, a dot, then digits.
    if tok.len() < 2 || tok[k] != 46 {
        return None;
    }
    let mut j: usize = k + 1;
    while j < tok.len() && 48 <= tok[j] && tok[j] <= 57
        invariant
            k + 1 <= j <= tok@.len(),
            forall|m: int| k + 1 <= m < j ==> is_digit(#[trigger] tok@[m]),
        decreases tok@.len() - j,
    {
        j = j + 1;
    }
    if j < tok.len() {
        proof {
            assert(tok@.skip(k + 1)[j - (k + 1)] == tok@[j as int]);
            assert(!is_digit(tok@.skip(k + 1)[j - (k + 1)]));
        }
        return None;
    }
    proof {
        assert(forall|m: int|
            0 <= m < tok@.skip(k + 1).len() ==> #[trigger] tok@.skip(k + 1)[m] == tok@[k + 1 + m]);
        assert(all_digits(tok@.skip(k + 1)));
    }
    let up: bool = k + 1 < tok.len() && tok[k + 1] >= 53;
    match ival {
        Some(v) => {
            if up {
                if v == u64::MAX {
                    return None;
                }
                Some(v + 1)
            } else {
                Some(v)
            }
        },
        None => {
            proof {
                lemma_digits_value_nonneg(tok@.take(k as int));
            }
            None
        },
    }
}

/// Parse a set-TX argument.
pub fn parse_tx_token(tok: &Vec<u8>) -> (on: bool)
    ensures
        on == tx_of_token(tok@),
{
    if tok.len() == 0 {
        return false;
    }
    let signed: bool = tok[0] == 45 || tok[0] == 43;
    let neg: bool = tok[0] == 45;
    let start: usize = if signed {
        1
    } else {
        0
    };
    let (e, ival) = scan_digits(tok, start);
    let ghost digs = if signed {
        tok@.skip(1)
    } else {
        tok@
    };
    proof {
        assert(forall|m: int| 0 <= m < digs.len() ==> #[trigger] digs[m] == tok@[start + m]);
    }
    if e < tok.len() {
        proof {
            assert(digs[e - start] == tok@[e as int]);
            assert(!is_digit(digs[e - start]));
        }
        return false;
    }
    if e == start {
        return false;
    }
    proof {
        assert(digs =~= tok@.subrange(start as int, e as int));
        assert(all_digits(digs));
    }
    match ival {
        Some(v) => {
            if neg {
                if v > 0x8000_0000u64 {
                    false
                } else {
                    v != 0
                }
            } else {
                if v > 0x7fff_ffffu64 {
                    false
                } else {
                    v != 0
                }
            }
        },
        None => {
            proof {
                lemma_digits_value_nonneg(digs);
            }
            false
        },
    }
}

// ---------------------------------------------------------------------------
// Replies and meta command names.
// ---------------------------------------------------------------------------
/// `RPRT 0\n` — the success report.
pub open spec fn rprt0_reply() -> Seq<u8> {
    seq![82u8, 80u8, 82u8, 84u8, 32u8, 48u8, 10u8]
}

/// `RPRT -1\n` — the failure report.
pub open spec fn rprt_err_reply() -> Seq<u8> {
    seq![82u8, 80u8, 82u8, 84u8, 32u8, 45u8, 49u8, 10u8]
}

/// `0\n`.
pub open spec fn zero_reply() -> Seq<u8> {
    seq![48u8, 10u8]
}

/// `1\n`.
pub open spec fn one_reply() -> Seq<u8> {
    seq![49u8, 10u8]
}

/// `USB\n2400\n` — the fixed get-mode reply.
pub open spec fn mode_info_reply() -> Seq<u8> {
    seq![85u8, 83u8, 66u8, 10u8, 50u8, 52u8, 48u8, 48u8, 10u8]
}

/// `VFOA\n`.
pub open spec fn vfoa_reply() -> Seq<u8> {
    seq![86u8, 70u8, 79u8, 65u8, 10u8]
}

/// The get-frequency reply: the cached frequency in decimal, one line.
pub open spec fn freq_reply(hz: u64) -> Seq<u8> {
    dec_rep(hz as nat) + seq![10u8]
}

/// `0 0 0 0 0 0 0\n`.
pub open spec fn zeros7_line() -> Seq<u8> {
    seq![48u8, 32u8, 48u8, 32u8, 48u8, 32u8, 48u8, 32u8, 48u8, 32u8, 48u8, 32u8, 48u8, 10u8]
}

/// `0 0\n`.
pub open spec fn zeros2_line() -> Seq<u8> {
    seq![48u8, 32u8, 48u8, 10u8]
}

/// The canned 19-line capability dump.
pub open spec fn dump_state_reply() -> Seq<u8> {
    zero_reply() + zero_reply() + zero_reply() + zeros7_line() + zeros7_line() + zeros2_line()
        + zeros2_line() + zero_reply() + zero_reply() + zero_reply() + zero_reply() + zeros7_line()
        + zeros7_line() + zero_reply() + zero_reply() + zero_reply() + zero_reply() + zero_reply()
        + zero_reply()
}

/// `chk_vfo`.
pub open spec fn chk_vfo_name() -> Seq<u8> {
    seq![99u8, 104u8, 107u8, 95u8, 118u8, 102u8, 111u8]
}

/// `get_powerstat`.
pub open spec fn get_powerstat_name() -> Seq<u8> {
    seq![103u8, 101u8, 116u8, 95u8, 112u8, 111u8, 119u8, 101u8, 114u8, 115u8, 116u8, 97u8, 116u8]
}

/// `dump_state`.
pub open spec fn dump_state_name() -> Seq<u8> {
    seq![100u8, 117u8, 109u8, 112u8, 95u8, 115u8, 116u8, 97u8, 116u8, 101u8]
}

fn reply_rprt0() -> (v: Vec<u8>)
    ensures
        v@ == rprt0_reply(),
{
    let mut v: Vec<u8> = Vec::new();
    v.push(82);
    v.push(80);
    v.push(82);
    v.push(84);
    v.push(32);
    v.push(48);
    v.push(10);
    proof {
        assert(v@ =~= rprt0_reply());
    }
    v
}

fn reply_rprt_err() -> (v: Vec<u8>)
    ensures
        v@ == rprt_err_reply(),
{
    let mut v: Vec<u8> = Vec::new();
    v.push(82);
    v.push(80);
    v.push(82);
    v.push(84);
    v.push(32);
    v.push(45);
    v.push(49);
    v.push(10);
    proof {
        assert(v@ =~= rprt_err_reply());
    }
    v
}

fn reply_zero() -> (v: Vec<u8>)
    ensures
        v@ == zero_reply(),
{
    let mut v: Vec<u8> = Vec::new();
    v.push(48);
    v.push(10);
    proof {
        assert(v@ =~= zero_reply());
    }
    v
}

fn reply_one() -> (v: Vec<u8>)
    ensures
        v@ == one_reply(),
{
    let mut v: Vec<u8> = Vec::new();
    v.push(49);
    v.push(10);
    proof {
        assert(v@ =~= one_reply());
    }
    v
}

fn reply_mode_info() -> (v: Vec<u8>)
    ensures
        v@ == mode_info_reply(),
{
    let mut v: Vec<u8> = Vec::new();
    v.push(85);
    v.push(83);
    v.push(66);
    v.push(10);
    v.push(50);
    v.push(52);
    v.push(48);
    v.push(48);
    v.push(10);
    proof {
        assert(v@ =~= mode_info_reply());
    }
    v
}

fn reply_vfoa() -> (v: Vec<u8>)
    ensures
        v@ == vfoa_reply(),
{
    let mut v: Vec<u8> = Vec::new();
    v.push(86);
    v.push(70);
    v.push(79);
    v.push(65);
    v.push(10);
    proof {
        assert(v@ =~= vfoa_reply());
    }
    v
}

fn reply_freq(hz: u64) -> (v: Vec<u8>)
    ensures
        v@ == freq_reply(hz),
{
    let mut v = u64_to_dec(hz);
    v.push(10);
    proof {
        assert(v@ =~= freq_reply(hz));
    }
    v
}

fn push_zero_line(v: &mut Vec<u8>)
    ensures
        final(v)@ == old(v)@ + zero_reply(),
{
    v.push(48);
    v.push(10);
    proof {
        assert(v@ =~= old(v)@ + zero_reply());
    }
}

fn push_zeros7_line(v: &mut Vec<u8>)
    ensures
        final(v)@ == old(v)@ + zeros7_line(),
{
    let mut i: usize = 0;
    while i < 6
        invariant
            i <= 6,
            v@.len() == old(v)@.len() + 2 * i,
            forall|j: int| 0 <= j < old(v)@.len() ==> #[trigger] v@[j] == old(v)@[j],
            forall|j: int|
                old(v)@.len() <= j < v@.len() ==> #[trigger] v@[j] == (if (j - old(v)@.len()) % 2
                    == 0 {
                    48u8
                } else {
                    32u8
                }),
        decreases 6 - i,
    {
        v.push(48);
        v.push(32);
        i = i + 1;
    }
    v.push(48);
    v.push(10);
    proof {
        assert(v@ =~= old(v)@ + zeros7_line());
    }
}

fn push_zeros2_line(v: &mut Vec<u8>)
    ensures
        final(v)@ == old(v)@ + zeros2_line(),
{
    v.push(48);
    v.push(32);
    v.push(48);
    v.push(10);
    proof {
        assert(v@ =~= old(v)@ + zeros2_line());
    }
}

fn reply_dump_state() -> (v: Vec<u8>)
    ensures
        v@ == dump_state_reply(),
{
    let mut v: Vec<u8> = Vec::new();
    push_zero_line(&mut v);
    push_zero_line(&mut v);
    push_zero_line(&mut v);
    push_zeros7_line(&mut v);
    push_zeros7_line(&mut v);
    push_zeros2_line(&mut v);
    push_zeros2_line(&mut v);
    push_zero_line(&mut v);
    push_zero_line(&mut v);
    push_zero_line(&mut v);
    push_zero_line(&mut v);
    push_zeros7_line(&mut v);
    push_zeros7_line(&mut v);
    push_zero_line(&mut v);
    push_zero_line(&mut v);
    push_zero_line(&mut v);
    push_zero_line(&mut v);
    push_zero_line(&mut v);
    push_zero_line(&mut v);
    proof {
        assert(v@ =~= dump_state_reply());
    }
    v
}

fn lit_chk_vfo() -> (v: Vec<u8>)
    ensures
        v@ == chk_vfo_name(),
{
    let mut v: Vec<u8> = Vec::new();
    v.push(99);
    v.push(104);
    v.push(107);
    v.push(95);
    v.push(118);
    v.push(102);
    v.push(111);
    proof {
        assert(v@ =~= chk_vfo_name());
    }
    v
}

fn lit_get_powerstat() -> (v: Vec<u8>)
    ensures
        v@ == get_powerstat_name(),
{
    let mut v: Vec<u8> = Vec::new();
    v.push(103);
    v.push(101);
    v.push(116);
    v.push(95);
    v.push(112);
    v.push(111);
    v.push(119);
    v.push(101);
    v.push(114);
    v.push(115);
    v.push(116);
    v.push(97);
    v.push(116);
    proof {
        assert(v@ =~= get_powerstat_name());
    }
    v
}

fn lit_dump_state() -> (v: Vec<u8>)
    ensures
        v@ == dump_state_name(),
{
    let mut v: Vec<u8> = Vec::new();
    v.push(100);
    v.push(117);
    v.push(109);
    v.push(112);
    v.push(95);
    v.push(115);
    v.push(116);
    v.push(97);
    v.push(116);
    v.push(101);
    proof {
        assert(v@ =~= dump_state_name());
    }
    v
}

/// Copy the bytes of `v` from `n` on.
fn skip_bytes(v: &Vec<u8>, n: usize) -> (r: Vec<u8>)
    requires
        n <= v@.len(),
    ensures
        r@ == v@.skip(n as int),
{
    let mut r: Vec<u8> = Vec::new();
    let mut i: usize = n;
    while i < v.len()
        invariant
            n <= i <= v@.len(),
            r@.len() == i - n,
            forall|j: int| 0 <= j < r@.len() ==> #[trigger] r@[j] == v@[n + j],
        decreases v@.len() - i,
    {
        r.push(v[i]);
        i = i + 1;
    }
    proof {
        assert(r@ =~= v@.skip(n as int));
    }
    r
}

// ---------------------------------------------------------------------------
// The protocol dispatch.
// ---------------------------------------------------------------------------
/// What a `T` command writes to the radio link, bypassing the queue.
pub enum LinkCmd {
    /// Nothing is written to the link.
    CmdNone,
    /// The enter-transmit command `;TX0;` is written.
    CmdTx0,
    /// The stream-enable sequence (speaker off) is written under an RTS
    /// bracket.
    CmdStreamOff,
}

/// Everything one control line does: the reply, the shared state after,
/// the CAT command staged on the queue, whether the session ends, and what
/// is written to the link directly.
pub struct CtlEffect {
    /// The reply sent back to the client.
    pub reply: Seq<u8>,
    /// Cached frequency after the command.
    pub freq: u64,
    /// TX intent after the command.
    pub tx: bool,
    /// CAT command staged on the queue, if any.
    pub enqueue: Option<Seq<u8>>,
    /// The session ends after this reply.
    pub quit: bool,
    /// What is written to the link directly.
    pub link_cmd: LinkCmd,
}

/// The meaning of one trimmed control line against the current cached
/// frequency and TX intent.
pub open spec fn rigctl_effect(freq0: u64, tx0: bool, cmd: Seq<u8>) -> CtlEffect {
    let keep = CtlEffect {
        reply: rprt0_reply(),
        freq: freq0,
        tx: tx0,
        enqueue: None,
        quit: false,
        link_cmd: LinkCmd::CmdNone,
    };
    if cmd.len() == 0 {
        CtlEffect { reply: Seq::<u8>::empty(), ..keep }
    } else if cmd[0] == 92 {  // `\` meta commands: canned replies
        let meta = cmd.skip(1);
        if meta == chk_vfo_name() {
            CtlEffect { reply: zero_reply(), ..keep }
        } else if meta == get_powerstat_name() {
            CtlEffect { reply: one_reply(), ..keep }
        } else if meta == dump_state_name() {
            CtlEffect { reply: dump_state_reply(), ..keep }
        } else {
            keep
        }
    } else if cmd[0] == 102 {  // `f`: get frequency
        CtlEffect { reply: freq_reply(freq0), ..keep }
    } else if cmd[0] == 70 {  // `F <hz>`: set frequency
        match second_token_spec(cmd) {
            Some(tok) => match freq_of_token(tok) {
                Some(hz) => CtlEffect { freq: hz, enqueue: Some(fa_set_cmd(hz)), ..keep },
                None => CtlEffect { reply: rprt_err_reply(), ..keep },
            },
            None => CtlEffect { reply: rprt_err_reply(), ..keep },
        }
    } else if cmd[0] == 109 {  // `m`: get mode
        CtlEffect { reply: mode_info_reply(), ..keep }
    } else if cmd[0] == 77 {  // `M …`: set mode, always USB
        CtlEffect { enqueue: Some(md_cmd(2)), ..keep }
    } else if cmd[0] == 118 {  // `v`: get VFO
        CtlEffect { reply: vfoa_reply(), ..keep }
    } else if cmd[0] == 116 {  // `t`: get TX
        CtlEffect {
            reply: if tx0 {
                one_reply()
            } else {
                zero_reply()
            },
            ..keep
        }
    } else if cmd[0] == 84 {  // `T <n>`: set TX, written to the link directly
        match second_token_spec(cmd) {
            Some(tok) => {
                let on = tx_of_token(tok);
                CtlEffect {
                    tx: on,
                    link_cmd: if on {
                        LinkCmd::CmdTx0
                    } else {
                        LinkCmd::CmdStreamOff
                    },
                    ..keep
                }
            },
            None => keep,
        }
    } else if cmd[0] == 113 {  // `q`: quit
        CtlEffect { quit: true, ..keep }
    } else {
        keep
    }
}

/// Handle one control line: trim it, dispatch on its first byte, update
/// the shared state and the queue, write TX toggles to the link, and
/// return the reply and whether the session ends.
pub fn handle_rigctl_line(
    line: &Vec<u8>,
    shared: &mut SharedState,
    queue: &mut CatQueue,
    link: &mut RadioLink,
) -> (r: (Vec<u8>, bool))
    ensures
        ({
            let e = rigctl_effect(old(shared).freq_hz, old(shared).tx, trim_spec(line@));
            &&& r.0@ == e.reply
            &&& r.1 == e.quit
            &&& final(shared).freq_hz == e.freq
            &&& final(shared).tx == e.tx
            &&& final(shared).mode == old(shared).mode
            &&& final(shared).input_level_x1280 == old(shared).input_level_x1280
            &&& final(shared).output_sum_sq == old(shared).output_sum_sq
            &&& final(shared).output_samples == old(shared).output_samples
            &&& final(shared).streaming_started == old(shared).streaming_started
            &&& final(shared).stop == old(shared).stop
            &&& final(queue)@ == (match e.enqueue {
                Some(c) => old(queue)@.push(c),
                None => old(queue)@,
            })
            &&& (match e.link_cmd {
                LinkCmd::CmdNone => final(link)@ == old(link)@,
                LinkCmd::CmdTx0 => (exists|k: int|
                    0 <= k <= tx0_cmd().len() && final(link)@.wire == old(link)@.wire + bytes_ev(
                        #[trigger] tx0_cmd().take(k),
                    )) && final(link)@.rts == old(link)@.rts && final(link)@.dtr == old(
                    link,
                )@.dtr,
                LinkCmd::CmdStreamOff => final(link)@.dtr == old(link)@.dtr,
            })
        }),
{
    let cmd = trim_bytes(line);
    if cmd.len() == 0 {
        return (Vec::new(), false);
    }
    let c = cmd[0];
    if c == 92 {
        let meta = skip_bytes(&cmd, 1);
        let chk = lit_chk_vfo();
        let pw = lit_get_powerstat();
        let ds = lit_dump_state();
        if bytes_eq(meta.as_slice(), chk.as_slice()) {
            (reply_zero(), false)
        } else if bytes_eq(meta.as_slice(), pw.as_slice()) {
            (reply_one(), false)
        } else if bytes_eq(meta.as_slice(), ds.as_slice()) {
            (reply_dump_state(), false)
        } else {
            (reply_rprt0(), false)
        }
    } else if c == 102 {
        (reply_freq(shared.freq_hz), false)
    } else if c == 70 {
        match second_token(&cmd) {
            Some(tok) => {
                match parse_freq_token(&tok) {
                    Some(hz) => {
                        shared.freq_hz = hz;
                        queue.push(fa_set_command(hz));
                        (reply_rprt0(), false)
                    },
                    None => (reply_rprt_err(), false),
                }
            },
            None => (reply_rprt_err(), false),
        }
    } else if c == 109 {
        (reply_mode_info(), false)
    } else if c == 77 {
        queue.push(cmd_set_mode(2));
        (reply_rprt0(), false)
    } else if c == 118 {
        (reply_vfoa(), false)
    } else if c == 116 {
        if shared.tx {
            (reply_one(), false)
        } else {
            (reply_zero(), false)
        }
    } else if c == 84 {
        match second_token(&cmd) {
            Some(tok) => {
                let on = parse_tx_token(&tok);
                if on {
                    let _ = link.start_transmit_baseband();
                    proof {
                        assert(tx0_cmd().take(tx0_cmd().len() as int) =~= tx0_cmd());
                    }
                } else {
                    let _ = link.enable_streaming_speaker_off();
                }
                shared.tx = on;
                (reply_rprt0(), false)
            },
            None => (reply_rprt0(), false),
        }
    } else if c == 113 {
        (reply_rprt0(), true)
    } else {
        (reply_rprt0(), false)
    }
}

// ---------------------------------------------------------------------------
// Laws relating set and get commands.
// ---------------------------------------------------------------------------
/// Setting TX by `T 1` (or `T 0`) replies with success and latches the TX
/// intent, and a subsequent `t` query reports exactly that intent back.
pub proof fn lemma_tx_set_then_get(freq0: u64, tx0: bool, on: bool)
    ensures
        ({
            let tok: Seq<u8> = if on {
                seq![49u8]
            } else {
                seq![48u8]
            };
            let e = rigctl_effect(freq0, tx0, seq![84u8, 32u8] + tok);
            &&& e.reply == rprt0_reply()
            &&& e.tx == on
            &&& !e.quit
            &&& rigctl_effect(e.freq, e.tx, seq![116u8]).reply == tok + seq![10u8]
        }),
{
    let tok: Seq<u8> = if on {
        seq![49u8]
    } else {
        seq![48u8]
    };
    let cmd = seq![84u8, 32u8] + tok;
    assert(cmd.len() == 3);
    assert(cmd[0] == 84 && cmd[1] == 32 && !is_ws(cmd[2]) && is_digit(cmd[2]));
    lemma_token_len_is(cmd, 1);
    let rest = cmd.skip(1);
    assert(rest.len() == 2 && rest[0] == 32 && rest[1] == cmd[2]);
    lemma_ws_run_len_is(rest, 1);
    let rest2 = rest.skip(1);
    assert(rest2.len() == 1 && rest2[0] == cmd[2]);
    lemma_token_len_is(rest2, 1);
    assert(rest2.take(1) =~= tok);
    assert(second_token_spec(cmd) == Some(tok));
    assert(all_digits(tok));
    assert(tok.drop_last() =~= Seq::<u8>::empty());
    assert(digits_value(tok.drop_last()) == 0);
    assert(digits_value(tok) == tok[0] - 48);
    assert(i32_token_value(tok) == Some((tok[0] - 48) as int));
    assert(tx_of_token(tok) == on);
    assert(rigctl_effect(freq0, on, seq![116u8]).reply == (if on {
        one_reply()
    } else {
        zero_reply()
    })) by {
        assert(seq![116u8][0] == 116);
    }
    assert((if on {
        one_reply()
    } else {
        zero_reply()
    }) =~= tok + seq![10u8]);
}

/// Setting the frequency by `F <hz>` replies with success, caches exactly
/// that frequency, and stages the corresponding `FA…;` command for the
/// radio; a subsequent `f` query reports the new frequency from the cache
/// alone, with no further radio exchange.
pub proof fn lemma_freq_set_then_get(freq0: u64, tx0: bool, hz: u64)
    ensures
        ({
            let cmd = seq![70u8, 32u8] + dec_rep(hz as nat);
            let e = rigctl_effect(freq0, tx0, cmd);
            &&& e.reply == rprt0_reply()
            &&& e.freq == hz
            &&& e.enqueue == Some(fa_set_cmd(hz))
            &&& e.link_cmd is CmdNone
            &&& rigctl_effect(e.freq, e.tx, seq![102u8]).reply == dec_rep(hz as nat) + seq![10u8]
        }),
{
    lemma_dec_rep_digits(hz as nat);
    let digits = dec_rep(hz as nat);
    let cmd = seq![70u8, 32u8] + digits;
    assert(cmd[0] == 70 && cmd[1] == 32);
    assert(forall|i: int| 2 <= i < cmd.len() ==> #[trigger] cmd[i] == digits[i - 2]);
    assert(!is_ws(cmd[0]) && is_ws(cmd[1]));
    lemma_token_len_is(cmd, 1);
    let rest = cmd.skip(1);
    assert(forall|i: int| 0 <= i < rest.len() ==> #[trigger] rest[i] == cmd[i + 1]);
    assert(is_ws(rest[0]));
    assert(forall|i: int| 1 <= i < rest.len() ==> is_digit(#[trigger] rest[i]));
    assert(!is_ws(rest[1]));
    lemma_ws_run_len_is(rest, 1);
    let rest2 = rest.skip(1);
    assert(forall|i: int| 0 <= i < rest2.len() ==> #[trigger] rest2[i] == digits[i]);
    lemma_token_len_is(rest2, rest2.len() as int);
    assert(rest2.take(rest2.len() as int) =~= digits);
    assert(second_token_spec(cmd) == Some(digits));
    lemma_digit_run_len_is(digits, digits.len() as int);
    assert(freq_of_token(digits) == Some(hz));
    assert(rigctl_effect(hz, tx0, seq![102u8]).reply == freq_reply(hz)) by {
        assert(seq![102u8][0] == 102);
    }
}

} // verus!
