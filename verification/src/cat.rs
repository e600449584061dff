//! CAT command handling: the fixed command byte strings the bridge sends,
//! zero-padded frequency set commands, and parsing of the inbound `FA` and
//! `MD` replies, together with the queue of pending outbound commands.

use vstd::prelude::*;
use crate::state::{Mode, mode_of_digit};

verus! {

// ---------------------------------------------------------------------------
// Outbound command byte strings.
// ---------------------------------------------------------------------------
/// `;RX;` — leave transmit.
pub open spec fn rx_cmd() -> Seq<u8> {
    seq![59u8, 82u8, 88u8, 59u8]
}

/// `;TX0;` — enter transmit on the base-band path.
pub open spec fn tx0_cmd() -> Seq<u8> {
    seq![59u8, 84u8, 88u8, 48u8, 59u8]
}

/// `FA;` — query the VFO-A frequency.
pub open spec fn fa_query_cmd() -> Seq<u8> {
    seq![70u8, 65u8, 59u8]
}

/// `UA<n>;` — audio streaming off / on with speaker / on without speaker.
pub open spec fn ua_cmd(n: u8) -> Seq<u8> {
    seq![85u8, 65u8, (48 + n) as u8, 59u8]
}

/// The digit sent for a mode-set request; unknown numbers fall back to USB.
pub open spec fn md_digit(mode: u8) -> u8 {
    if mode <= 5 {
        (48 + mode) as u8
    } else {
        50u8
    }
}

/// `MD<d>;` — set the operating mode.
pub open spec fn md_cmd(mode: u8) -> Seq<u8> {
    seq![77u8, 68u8, md_digit(mode), 59u8]
}

/// The stream-enable sequence: `;RX;` then `UA1;` (speaker on) or `UA2;`
/// (speaker off).
pub open spec fn stream_enable_cmd(speaker_on: bool) -> Seq<u8> {
    rx_cmd() + ua_cmd(
        if speaker_on {
            1
        } else {
            2
        },
    )
}

/// Build `;RX;`.
pub fn cmd_rx() -> (cmd: Vec<u8>)
    ensures
        cmd@ == rx_cmd(),
{
    let mut cmd: Vec<u8> = Vec::new();
    cmd.push(59);
    cmd.push(82);
    cmd.push(88);
    cmd.push(59);
    proof {
        assert(cmd@ =~= rx_cmd());
    }
    cmd
}

/// Build `;TX0;`.
pub fn cmd_tx0() -> (cmd: Vec<u8>)
    ensures
        cmd@ == tx0_cmd(),
{
    let mut cmd: Vec<u8> = Vec::new();
    cmd.push(59);
    cmd.push(84);
    cmd.push(88);
    cmd.push(48);
    cmd.push(59);
    proof {
        assert(cmd@ =~= tx0_cmd());
    }
    cmd
}

/// Build `FA;`.
pub fn cmd_fa_query() -> (cmd: Vec<u8>)
    ensures
        cmd@ == fa_query_cmd(),
{
    let mut cmd: Vec<u8> = Vec::new();
    cmd.push(70);
    cmd.push(65);
    cmd.push(59);
    proof {
        assert(cmd@ =~= fa_query_cmd());
    }
    cmd
}

/// Build `MD<d>;` for a mode-set request.
pub fn cmd_set_mode(mode: u8) -> (cmd: Vec<u8>)
    ensures
        cmd@ == md_cmd(mode),
{
    let digit: u8 = if mode <= 5 {
        48 + mode
    } else {
        50
    };
    let mut cmd: Vec<u8> = Vec::new();
    cmd.push(77);
    cmd.push(68);
    cmd.push(digit);
    cmd.push(59);
    proof {
        assert(cmd@ =~= md_cmd(mode));
    }
    cmd
}

/// Build the stream-enable sequence `;RX;UA1;` or `;RX;UA2;`.
pub fn cmd_stream_enable(speaker_on: bool) -> (cmd: Vec<u8>)
    ensures
        cmd@ == stream_enable_cmd(speaker_on),
{
    let mut cmd: Vec<u8> = Vec::new();
    cmd.push(59);
    cmd.push(82);
    cmd.push(88);
    cmd.push(59);
    cmd.push(85);
    cmd.push(65);
    if speaker_on {
        cmd.push(49);
    } else {
        cmd.push(50);
    }
    cmd.push(59);
    proof {
        assert(cmd@ =~= stream_enable_cmd(speaker_on));
    }
    cmd
}

// ---------------------------------------------------------------------------
// Decimal digit strings.
// ---------------------------------------------------------------------------
/// ASCII decimal digit.
pub open spec fn is_digit(b: u8) -> bool {
    48 <= b <= 57
}

/// Numeric value of a digit string, most significant digit first.
pub open spec fn digits_value(s: Seq<u8>) -> int
    decreases s.len(),
{
    if s.len() == 0 {
        0
    } else {
        digits_value(s.drop_last()) * 10 + (s.last() - 48)
    }
}

/// All bytes of `s` are decimal digits.
pub open spec fn all_digits(s: Seq<u8>) -> bool {
    forall|i: int| 0 <= i < s.len() ==> is_digit(#[trigger] s[i])
}

pub proof fn lemma_digits_value_nonneg(s: Seq<u8>)
    requires
        all_digits(s),
    ensures
        digits_value(s) >= 0,
    decreases s.len(),
{
    if s.len() > 0 {
        assert(all_digits(s.drop_last()));
        lemma_digits_value_nonneg(s.drop_last());
        assert(digits_value(s.drop_last()) * 10 >= 0) by (nonlinear_arith)
            requires
                digits_value(s.drop_last()) >= 0,
        ;
    }
}

/// The decimal representation of a natural number, without leading zeros.
pub open spec fn dec_rep(n: nat) -> Seq<u8>
    decreases n,
{
    if n < 10 {
        seq![(48 + n) as u8]
    } else {
        dec_rep(n / 10).push((48 + n % 10) as u8)
    }
}

pub proof fn lemma_dec_rep_digits(n: nat)
    ensures
        dec_rep(n).len() >= 1,
        all_digits(dec_rep(n)),
        digits_value(dec_rep(n)) == n,
    decreases n,
{
    if n < 10 {
        let s = dec_rep(n);
        assert(s.last() == (48 + n) as u8);
        assert(s.drop_last() =~= Seq::<u8>::empty());
        assert(digits_value(s.drop_last()) == 0);
        assert(digits_value(s) == s.last() - 48);
    } else {
        lemma_dec_rep_digits(n / 10);
        let s = dec_rep(n);
        assert(s.drop_last() =~= dec_rep(n / 10));
        assert forall|i: int| 0 <= i < s.len() implies is_digit(#[trigger] s[i]) by {
            if i < s.len() - 1 {
                assert(s[i] == s.drop_last()[i]);
                assert(is_digit(dec_rep((n / 10) as nat)[i]));
            } else {
                assert(s[i] == s.last());
            }
        }
        assert(s.last() == (48 + n % 10) as u8);
        assert(s.last() - 48 == n % 10);
        assert(digits_value(s) == digits_value(dec_rep(n / 10)) * 10 + (n % 10));
        assert(n == (n / 10) * 10 + n % 10) by (nonlinear_arith);
    }
}

/// Render a number as decimal digits.
pub fn u64_to_dec(n: u64) -> (digits: Vec<u8>)
    ensures
        digits@ == dec_rep(n as nat),
{
    let mut digits: Vec<u8> = Vec::new();
    let mut m: u64 = n;
    while m >= 10
        invariant
            dec_rep(n as nat) == dec_rep(m as nat) + digits@,
        decreases m,
    {
        let d: u8 = (m % 10) as u8 + 48;
        let ghost dold = digits@;
        let ghost mold = m as nat;
        digits.insert(0, d);
        m = m / 10;
        proof {
            assert(digits@ =~= seq![d] + dold);
            assert(dec_rep(mold) == dec_rep(mold / 10).push((48 + mold % 10) as u8));
            assert(dec_rep(mold / 10).push((48 + mold % 10) as u8) + dold =~= dec_rep(m as nat)
                + digits@);
        }
    }
    let ghost dold = digits@;
    digits.insert(0, (m as u8) + 48);
    proof {
        assert(digits@ =~= seq![((m as u8) + 48) as u8] + dold);
        assert(dec_rep(m as nat) =~= seq![(48 + m as nat) as u8]);
        assert(digits@ =~= dec_rep(n as nat));
    }
    digits
}

/// `FA` set command with the frequency padded to at least 11 digits.
pub open spec fn pad11(d: Seq<u8>) -> Seq<u8> {
    if d.len() >= 11 {
        d
    } else {
        Seq::new((11 - d.len()) as nat, |i: int| 48u8) + d
    }
}

/// The complete `FA<11-digit-hz>;` set command for a frequency.
pub open spec fn fa_set_cmd(hz: u64) -> Seq<u8> {
    seq![70u8, 65u8] + pad11(dec_rep(hz as nat)) + seq![59u8]
}

/// Build the `FA…;` set command for a frequency, zero-padded to 11 digits.
pub fn fa_set_command(hz: u64) -> (cmd: Vec<u8>)
    ensures
        cmd@ == fa_set_cmd(hz),
{
    let digits = u64_to_dec(hz);
    let mut cmd: Vec<u8> = Vec::new();
    cmd.push(70);
    cmd.push(65);
    let mut pad: usize = 0;
    let need: usize = if digits.len() >= 11 {
        0
    } else {
        11 - digits.len()
    };
    while pad < need
        invariant
            pad <= need,
            cmd@.len() == 2 + pad,
            cmd@[0] == 70u8 && cmd@[1] == 65u8,
            forall|i: int| 2 <= i < cmd@.len() ==> cmd@[i] == 48u8,
        decreases need - pad,
    {
        cmd.push(48);
        pad = pad + 1;
    }
    let mut i: usize = 0;
    while i < digits.len()
        invariant
            i <= digits@.len(),
            cmd@.len() == 2 + need + i,
            cmd@[0] == 70u8 && cmd@[1] == 65u8,
            forall|j: int| 2 <= j < 2 + need ==> cmd@[j] == 48u8,
            forall|j: int| 0 <= j < i ==> cmd@[2 + need + j] == digits@[j],
        decreases digits@.len() - i,
    {
        let d = digits[i];
        cmd.push(d);
        i = i + 1;
    }
    cmd.push(59);
    proof {
        assert(cmd@ =~= fa_set_cmd(hz));
    }
    cmd
}

// ---------------------------------------------------------------------------
// Inbound reply parsing.
// ---------------------------------------------------------------------------
/// Length of the longest run of decimal digits at the start of `s`.
pub open spec fn digit_run_len(s: Seq<u8>) -> int
    decreases s.len(),
{
    if s.len() == 0 || !is_digit(s[0]) {
        0
    } else {
        1 + digit_run_len(s.skip(1))
    }
}

/// The digit run length is pinned down by its characteristic properties.
pub proof fn lemma_digit_run_len_is(s: Seq<u8>, n: int)
    requires
        0 <= n <= s.len(),
        forall|i: int| 0 <= i < n ==> is_digit(#[trigger] s[i]),
        n < s.len() ==> !is_digit(s[n]),
    ensures
        digit_run_len(s) == n,
    decreases s.len(),
{
    if n == 0 {
    } else {
        assert(forall|i: int| 0 <= i < s.len() - 1 ==> #[trigger] s.skip(1)[i] == s[i + 1]);
        lemma_digit_run_len_is(s.skip(1), n - 1);
    }
}

/// The text frame is an `FA` (VFO-A frequency) reply.
pub open spec fn is_fa(text: Seq<u8>) -> bool {
    text.len() >= 2 && text[0] == 70 && text[1] == 65
}

/// The digits carried by an `FA` reply: the longest digit run after `FA`.
pub open spec fn fa_digits(text: Seq<u8>) -> Seq<u8> {
    text.skip(2).take(digit_run_len(text.skip(2)))
}

/// The frequency carried by a text frame, if it is an `FA` reply whose digit
/// run is non-empty and fits a 64-bit count of Hz. However many digits are
/// present, they parse as the integer they form.
pub open spec fn fa_freq(text: Seq<u8>) -> Option<u64> {
    if is_fa(text) && fa_digits(text).len() > 0 && digits_value(fa_digits(text)) <= u64::MAX {
        Some(digits_value(fa_digits(text)) as u64)
    } else {
        None
    }
}

/// Parse an inbound `FA` reply.
pub fn parse_fa(text: &Vec<u8>) -> (r: Option<u64>)
    ensures
        r == fa_freq(text@),
{
    if text.len() < 2 || text[0] != 70 || text[1] != 65 {
        return None;
    }
    let ghost tail = text@.skip(2);
    let mut i: usize = 2;
    let mut val: u64 = 0;
    let mut overflow = false;
    proof {
        assert(tail.take(0) =~= Seq::<u8>::empty());
    }
    while i < text.len() && 48 <= text[i] && text[i] <= 57
        invariant
            2 <= i <= text@.len(),
            tail == text@.skip(2),
            forall|j: int| 0 <= j < i - 2 ==> is_digit(#[trigger] tail[j]),
            !overflow ==> val == digits_value(tail.take(i - 2)),
            overflow ==> digits_value(tail.take(i - 2)) > u64::MAX,
        decreases text@.len() - i,
    {
        let d: u8 = text[i] - 48;
        let ghost prefix = tail.take(i - 2);
        proof {
            assert(tail[i - 2] == text@[i as int]);
            assert(tail.take(i - 1).drop_last() =~= prefix);
            assert(tail.take(i - 1).last() == tail[i - 2]);
            assert(all_digits(prefix));
            lemma_digits_value_nonneg(prefix);
            assert(digits_value(tail.take(i - 1)) == digits_value(prefix) * 10 + (tail[i - 2]
                - 48));
        }
        if !overflow {
            if val > (u64::MAX - (d as u64)) / 10 {
                overflow = true;
                proof {
                    let vv = val as int;
                    let dd = d as int;
                    let mx = u64::MAX as int;
                    assert(mx - dd == 10 * ((mx - dd) / 10) + (mx - dd) % 10);
                    assert(vv * 10 + dd > mx);
                }
            } else {
                proof {
                    let vv = val as int;
                    let dd = d as int;
                    let mx = u64::MAX as int;
                    assert(mx - dd == 10 * ((mx - dd) / 10) + (mx - dd) % 10);
                    assert(vv * 10 + dd <= mx);
                }
                val = val * 10 + (d as u64);
            }
        } else {
            proof {
                let v = digits_value(prefix);
                assert(v * 10 + (tail[i - 2] - 48) > u64::MAX) by (nonlinear_arith)
                    requires
                        v > u64::MAX,
                        tail[i - 2] - 48 >= 0,
                ;
            }
        }
        i = i + 1;
    }
    proof {
        lemma_digit_run_len_is(tail, i - 2);
        assert(fa_digits(text@) =~= tail.take(i - 2));
    }
    if i == 2 {
        None
    } else if overflow {
        None
    } else {
        Some(val)
    }
}

/// The text frame is an `MD` (mode) reply.
pub open spec fn is_md(text: Seq<u8>) -> bool {
    text.len() >= 2 && text[0] == 77 && text[1] == 68
}

/// The mode carried by a text frame, if it is an `MD` reply; a missing digit
/// falls back to USB.
pub open spec fn md_mode(text: Seq<u8>) -> Option<Mode> {
    if is_md(text) {
        Some(
            mode_of_digit(
                if text.len() > 2 {
                    text[2]
                } else {
                    50
                },
            ),
        )
    } else {
        None
    }
}

/// Parse an inbound `MD` reply.
pub fn parse_md(text: &Vec<u8>) -> (r: Option<Mode>)
    ensures
        r == md_mode(text@),
{
    if text.len() < 2 || text[0] != 77 || text[1] != 68 {
        return None;
    }
    let digit: u8 = if text.len() > 2 {
        text[2]
    } else {
        50
    };
    Some(Mode::from_digit(digit))
}

/// Byte-string equality.
pub fn bytes_eq(a: &[u8], b: &[u8]) -> (r: bool)
    ensures
        r == (a@ == b@),
{
    if a.len() != b.len() {
        proof {
            assert(a@.len() != b@.len());
        }
        return false;
    }
    let mut i: usize = 0;
    while i < a.len()
        invariant
            i <= a@.len(),
            a@.len() == b@.len(),
            forall|j: int| 0 <= j < i ==> a@[j] == b@[j],
        decreases a@.len() - i,
    {
        if a[i] != b[i] {
            return false;
        }
        i = i + 1;
    }
    proof {
        assert(a@ =~= b@);
    }
    true
}

// ---------------------------------------------------------------------------
// The queue of pending outbound CAT commands.
// ---------------------------------------------------------------------------
/// Concatenation of a batch of commands, in order.
pub open spec fn concat_all(cmds: Seq<Seq<u8>>) -> Seq<u8>
    decreases cmds.len(),
{
    if cmds.len() == 0 {
        Seq::<u8>::empty()
    } else {
        concat_all(cmds.drop_last()) + cmds.last()
    }
}

/// A bounded-depth FIFO of complete, `;`-terminated CAT commands staged for
/// the audio bridge to write at its safe points.
pub struct CatQueue {
    items: Vec<Vec<u8>>,
}

impl View for CatQueue {
    type V = Seq<Seq<u8>>;

    closed spec fn view(&self) -> Seq<Seq<u8>> {
        self.items@.map_values(|v: Vec<u8>| v@)
    }
}

impl CatQueue {
    /// An empty queue.
    pub fn new() -> (q: CatQueue)
        ensures
            q@ == Seq::<Seq<u8>>::empty(),
    {
        let q = CatQueue { items: Vec::new() };
        proof {
            assert(q@ =~= Seq::<Seq<u8>>::empty());
        }
        q
    }

    /// Whether any command is pending.
    pub fn is_empty(&self) -> (r: bool)
        ensures
            r == (self@.len() == 0),
    {
        self.items.len() == 0
    }

    /// Stage one complete command.
    pub fn push(&mut self, cmd: Vec<u8>)
        ensures
            final(self)@ == old(self)@.push(cmd@),
    {
        let ghost prev = self@;
        self.items.push(cmd);
        proof {
            assert(self@ =~= prev.push(cmd@));
        }
    }

    /// Remove and return every pending command, in order.
    pub fn take_all(&mut self) -> (cmds: Vec<Vec<u8>>)
        ensures
            final(self)@.len() == 0,
            cmds@.map_values(|v: Vec<u8>| v@) == old(self)@,
    {
        let mut cmds: Vec<Vec<u8>> = Vec::new();
        core::mem::swap(&mut cmds, &mut self.items);
        proof {
            assert(self@ =~= Seq::<Seq<u8>>::empty());
        }
        cmds
    }
}

} // verus!
