//! The admin endpoint's line protocol: one request per line, words
//! separated by ASCII whitespace.

use crate::bytes::bytes_eq;
use vstd::prelude::*;

verus! {

/// ASCII whitespace: space, tab, line feed, form feed, carriage return.
pub open spec fn is_ascii_space(c: u8) -> bool {
    c == 32 || c == 9 || c == 10 || c == 12 || c == 13
}

/// The words of a line: its maximal runs of non-space bytes, in order.
pub open spec fn words(s: Seq<u8>) -> Seq<Seq<u8>>
    decreases s.len(),
{
    if s.len() == 0 {
        Seq::empty()
    } else if is_ascii_space(s.last()) {
        words(s.drop_last())
    } else if s.len() >= 2 && !is_ascii_space(s[s.len() - 2]) {
        let w = words(s.drop_last());
        w.update(w.len() - 1, w.last().push(s.last()))
    } else {
        words(s.drop_last()).push(seq![s.last()])
    }
}

pub open spec fn word_views(s: Seq<Vec<u8>>) -> Seq<Seq<u8>> {
    s.map_values(|w: Vec<u8>| w@)
}

proof fn lemma_words_nonempty(s: Seq<u8>)
    requires
        s.len() > 0,
        !is_ascii_space(s.last()),
    ensures
        words(s).len() > 0,
    decreases s.len(),
{
    if s.len() >= 2 && !is_ascii_space(s[s.len() - 2]) {
        lemma_words_nonempty(s.drop_last());
    }
}

/// Splits a line into its words.
pub fn split_words(line: &[u8]) -> (r: Vec<Vec<u8>>)
    ensures
        word_views(r@) == words(line@),
{
    let mut out: Vec<Vec<u8>> = Vec::new();
    let mut i: usize = 0;
    while i < line.len()
        invariant
            i <= line@.len(),
            word_views(out@) == words(line@.subrange(0, i as int)),
        decreases line@.len() - i,
    {
        let c = line[i];
        let ghost prefix = line@.subrange(0, i as int);
        let ghost next = line@.subrange(0, i + 1);
        assert(next.drop_last() =~= prefix);
        if c == 32 || c == 9 || c == 10 || c == 12 || c == 13 {
        } else if i > 0 && !(line[i - 1] == 32 || line[i - 1] == 9 || line[i - 1] == 10 || line[i - 1] == 12 || line[i - 1] == 13) {
            proof {
                lemma_words_nonempty(prefix);
            }
            let ghost before = out@;
            let mut last = out.pop().unwrap();
            last.push(c);
            out.push(last);
            assert(word_views(out@) =~= word_views(before).update(
                word_views(before).len() - 1,
                word_views(before).last().push(c),
            ));
        } else {
            let ghost before = out@;
            let mut w: Vec<u8> = Vec::new();
            w.push(c);
            out.push(w);
            assert(word_views(out@) =~= word_views(before).push(seq![c]));
        }
        i = i + 1;
    }
    assert(line@.subrange(0, line@.len() as int) =~= line@);
    out
}

/// Decimal value of a run of digits.
pub open spec fn decimal_value(s: Seq<u8>) -> int
    decreases s.len(),
{
    if s.len() == 0 {
        0
    } else {
        decimal_value(s.drop_last()) * 10 + (s.last() - 48)
    }
}

pub open spec fn all_digits(s: Seq<u8>) -> bool {
    forall|i: int| 0 <= i < s.len() ==> 48 <= #[trigger] s[i] <= 57
}

/// The digits of a number written with an optional leading `+`.
pub open spec fn unsigned_digits(s: Seq<u8>) -> Seq<u8> {
    if s.len() > 0 && s[0] == 43 {
        s.drop_first()
    } else {
        s
    }
}

/// The value of an unsigned decimal numeral not above `max`: an optional
/// `+`, then at least one digit.
pub open spec fn parse_unsigned(s: Seq<u8>, max: int) -> Option<int> {
    let d = unsigned_digits(s);
    if d.len() > 0 && all_digits(d) && decimal_value(d) <= max {
        Some(decimal_value(d))
    } else {
        None
    }
}

/// Reads an unsigned decimal numeral whose value is at most `max`.
pub fn parse_decimal(s: &[u8], max: u64) -> (r: Option<u64>)
    requires
        max >= 9,
    ensures
        r is Some <==> parse_unsigned(s@, max as int) is Some,
        r is Some ==> r->Some_0 as int == parse_unsigned(s@, max as int)->Some_0,
{
    let start: usize = if s.len() > 0 && s[0] == 43 {
        1
    } else {
        0
    };
    let ghost d = unsigned_digits(s@);
    assert(d =~= s@.subrange(start as int, s@.len() as int));
    if start >= s.len() {
        return None;
    }
    let mut v: u64 = 0;
    let mut overflow = false;
    let mut i: usize = start;
    while i < s.len()
        invariant
            start <= i <= s@.len(),
            max >= 9,
            d == s@.subrange(start as int, s@.len() as int),
            d == unsigned_digits(s@),
            forall|j: int| start <= j < i ==> 48 <= #[trigger] s@[j] <= 57,
            !overflow ==> v == decimal_value(s@.subrange(start as int, i as int)) && v <= max,
            overflow ==> decimal_value(s@.subrange(start as int, i as int)) > max,
            decimal_value(s@.subrange(start as int, i as int)) >= 0,
        decreases s@.len() - i,
    {
        let c = s[i];
        if c < 48 || c > 57 {
            assert(d[i - start] == c);
            return None;
        }
        let digit = (c - 48) as u64;
        let ghost pre = s@.subrange(start as int, i as int);
        assert(s@.subrange(start as int, i + 1).drop_last() =~= pre);
        if !overflow {
            if v > (max - digit) / 10 {
                assert(v * 10 + digit > max) by (nonlinear_arith)
                    requires
                        v > (max - digit) / 10,
                        digit <= 9,
                        max >= 9,
                ;
                overflow = true;
            } else {
                assert(v * 10 + digit <= max) by (nonlinear_arith)
                    requires
                        v <= (max - digit) / 10,
                        digit <= 9,
                        max >= 9,
                ;
                v = v * 10 + digit;
            }
        }
        i = i + 1;
    }
    assert(s@.subrange(start as int, i as int) == d);
    assert forall|k: int| 0 <= k < d.len() implies 48 <= #[trigger] d[k] <= 57 by {
        assert(d[k] == s@[start + k]);
    }
    if overflow {
        None
    } else {
        Some(v)
    }
}

/// The value of one hex digit, either case.
pub open spec fn hex_nibble(c: u8) -> Option<int> {
    if 48 <= c <= 57 {
        Some(c - 48)
    } else if 97 <= c <= 102 {
        Some(c - 87)
    } else if 65 <= c <= 70 {
        Some(c - 55)
    } else {
        None
    }
}

/// An even number of hex digits.
pub open spec fn hex_valid(s: Seq<u8>) -> bool {
    s.len() % 2 == 0 && forall|i: int| 0 <= i < s.len() ==> (#[trigger] hex_nibble(s[i])) is Some
}

/// The bytes that pairs of hex digits stand for, high nibble first.
pub open spec fn hex_bytes(s: Seq<u8>) -> Seq<u8> {
    Seq::new(
        (s.len() / 2) as nat,
        |i: int| (hex_nibble(s[2 * i])->Some_0 * 16 + hex_nibble(s[2 * i + 1])->Some_0) as u8,
    )
}

/// Relies on hex::decode: accepts an even number of hex digits of either
/// case and yields the byte of each pair.
#[verifier::external_body]
fn hex_decode(s: &[u8]) -> (r: Option<Vec<u8>>)
    ensures
        r is Some <==> hex_valid(s@),
        r is Some ==> r->Some_0@ == hex_bytes(s@),
{
    hex::decode(s).ok()
}

/// A request line of the admin endpoint.
pub enum AdminRequest {
    Stats,
    Pubkey,
    /// Up to this many recent transactions.
    RecentTxs(usize),
    Params,
    Send { to: Vec<u8>, amount: u64 },
    /// The stake fraction as written, for the caller to read as a decimal.
    Stake(Vec<u8>),
    Unknown,
}

/// Why a request line was refused.
pub enum AdminParseError {
    Empty,
    InvalidAmount,
    InvalidPubkeyHex,
}

/// Number of recent transactions listed when the request names none.
pub const DEFAULT_RECENT_LIMIT: usize = 20;

pub open spec fn kw_stats() -> Seq<u8> {
    seq![115u8, 116u8, 97u8, 116u8, 115u8]
}

pub open spec fn kw_pubkey() -> Seq<u8> {
    seq![112u8, 117u8, 98u8, 107u8, 101u8, 121u8]
}

pub open spec fn kw_send() -> Seq<u8> {
    seq![115u8, 101u8, 110u8, 100u8]
}

pub open spec fn kw_stake() -> Seq<u8> {
    seq![115u8, 116u8, 97u8, 107u8, 101u8]
}

pub open spec fn kw_recent_txs() -> Seq<u8> {
    seq![114u8, 101u8, 99u8, 101u8, 110u8, 116u8, 95u8, 116u8, 120u8, 115u8]
}

pub open spec fn kw_params() -> Seq<u8> {
    seq![112u8, 97u8, 114u8, 97u8, 109u8, 115u8]
}

/// Parses one request line: `stats`, `pubkey`, `params`, `recent_txs [N]`
/// (N defaulting to 20 when absent or unreadable), `send <hex_pubkey>
/// <amount>`, `stake <fraction>`; any other first word is unknown.
pub fn parse_admin_request(line: &[u8]) -> (r: Result<AdminRequest, AdminParseError>)
    ensures
        ({
            let ws = words(line@);
            &&& (r is Err && r->Err_0 is Empty) <==> ws.len() == 0
            &&& ws.len() > 0 && ws[0] == kw_stats() ==> r is Ok && r->Ok_0 is Stats
            &&& ws.len() > 0 && ws[0] == kw_pubkey() ==> r is Ok && r->Ok_0 is Pubkey
            &&& ws.len() > 0 && ws[0] == kw_params() ==> r is Ok && r->Ok_0 is Params
            &&& ws.len() > 0 && ws[0] == kw_recent_txs() ==> r is Ok && r->Ok_0 is RecentTxs
                && r->Ok_0->RecentTxs_0 as int == if ws.len() >= 2 && parse_unsigned(
                ws[1],
                usize::MAX as int,
            ) is Some {
                parse_unsigned(ws[1], usize::MAX as int)->Some_0
            } else {
                DEFAULT_RECENT_LIMIT as int
            }
            &&& ws.len() > 0 && ws[0] == kw_stake() ==> if ws.len() >= 2 {
                r is Ok && r->Ok_0 is Stake && r->Ok_0->Stake_0@ == ws[1]
            } else {
                r is Ok && r->Ok_0 is Unknown
            }
            &&& ws.len() > 0 && ws[0] == kw_send() ==> if ws.len() >= 3 {
                match parse_unsigned(ws[2], u64::MAX as int) {
                    None => r is Err && r->Err_0 is InvalidAmount,
                    Some(a) => if hex_valid(ws[1]) {
                        r is Ok && r->Ok_0 is Send && r->Ok_0->to@ == hex_bytes(ws[1])
                            && r->Ok_0->amount == a
                    } else {
                        r is Err && r->Err_0 is InvalidPubkeyHex
                    },
                }
            } else {
                r is Ok && r->Ok_0 is Unknown
            }
            &&& ws.len() > 0 && ws[0] != kw_stats() && ws[0] != kw_pubkey() && ws[0] != kw_params()
                && ws[0] != kw_recent_txs() && ws[0] != kw_stake() && ws[0] != kw_send() ==> r is Ok
                && r->Ok_0 is Unknown
        }),
{
    let ws = split_words(line);
    if ws.len() == 0 {
        return Err(AdminParseError::Empty);
    }
    assert(ws@.len() == words(line@).len());
    assert(ws@[0]@ == words(line@)[0]);
    let w0 = ws[0].as_slice();
    let stats: [u8; 5] = [115, 116, 97, 116, 115];
    let pubkey: [u8; 6] = [112, 117, 98, 107, 101, 121];
    let send: [u8; 4] = [115, 101, 110, 100];
    let stake: [u8; 5] = [115, 116, 97, 107, 101];
    let recent: [u8; 10] = [114, 101, 99, 101, 110, 116, 95, 116, 120, 115];
    let params: [u8; 6] = [112, 97, 114, 97, 109, 115];
    assert(stats@ =~= kw_stats());
    assert(pubkey@ =~= kw_pubkey());
    assert(send@ =~= kw_send());
    assert(stake@ =~= kw_stake());
    assert(recent@ =~= kw_recent_txs());
    assert(params@ =~= kw_params());
    if bytes_eq(w0, &stats) {
        Ok(AdminRequest::Stats)
    } else if bytes_eq(w0, &pubkey) {
        Ok(AdminRequest::Pubkey)
    } else if bytes_eq(w0, &params) {
        Ok(AdminRequest::Params)
    } else if bytes_eq(w0, &recent) {
        if ws.len() >= 2 {
            assert(ws@[1]@ == words(line@)[1]);
            let max: u64 = usize::MAX as u64;
            assert(max as int == usize::MAX as int);
            match parse_decimal(ws[1].as_slice(), max) {
                Some(n) => {
                    assert(parse_unsigned(words(line@)[1], usize::MAX as int) == Some(n as int));
                    Ok(AdminRequest::RecentTxs(n as usize))
                },
                None => {
                    assert(parse_unsigned(words(line@)[1], usize::MAX as int) is None);
                    Ok(AdminRequest::RecentTxs(DEFAULT_RECENT_LIMIT))
                },
            }
        } else {
            Ok(AdminRequest::RecentTxs(DEFAULT_RECENT_LIMIT))
        }
    } else if bytes_eq(w0, &stake) {
        if ws.len() >= 2 {
            assert(ws@[1]@ == words(line@)[1]);
            Ok(AdminRequest::Stake(crate::bytes::bytes_to_vec(ws[1].as_slice())))
        } else {
            Ok(AdminRequest::Unknown)
        }
    } else if bytes_eq(w0, &send) {
        if ws.len() >= 3 {
            assert(ws@[1]@ == words(line@)[1]);
            assert(ws@[2]@ == words(line@)[2]);
            match parse_decimal(ws[2].as_slice(), u64::MAX) {
                None => Err(AdminParseError::InvalidAmount),
                Some(amount) => match hex_decode(ws[1].as_slice()) {
                    Some(to) => Ok(AdminRequest::Send { to, amount }),
                    None => Err(AdminParseError::InvalidPubkeyHex),
                },
            }
        } else {
            Ok(AdminRequest::Unknown)
        }
    } else {
        Ok(AdminRequest::Unknown)
    }
}

} // verus!
