//! The recorded tape formats: comma-separated rows.
//!
//! A trade row is `id,price,qty,base_qty,time_ms,is_buyer_maker`; a
//! book-ticker row is `update_id,best_bid_price,best_bid_qty,
//! best_ask_price,best_ask_qty,transaction_time,event_time`. Prices and
//! quantities are unsigned decimal numbers, read into fixed-point
//! integer units with a caller-chosen number of fractional digits; ids
//! and timestamps are plain integers; the boolean parses as
//! `true`/`false` in any letter case. A row that does not parse is
//! reported so the reader can skip it.

use vstd::prelude::*;

use crate::market_data::BinanceBookTicker;
use crate::market_data::BinanceTradeTick;

verus! {

pub const COMMA: u8 = 44;

/// The spans of a byte string between occurrences of a separator, in
/// order. An empty string is one empty span.
pub open spec fn split_on(s: Seq<u8>, sep: u8) -> Seq<Seq<u8>>
    decreases s.len(),
{
    if s.len() == 0 {
        seq![Seq::<u8>::empty()]
    } else {
        let rest = split_on(s.drop_first(), sep);
        if s[0] == sep {
            seq![Seq::<u8>::empty()] + rest
        } else {
            seq![seq![s[0]] + rest[0]] + rest.drop_first()
        }
    }
}

/// The fields of a row: the byte spans between commas, in order. An
/// empty row is one empty field.
pub open spec fn split_commas(s: Seq<u8>) -> Seq<Seq<u8>> {
    split_on(s, COMMA)
}

pub proof fn lemma_split_on_len(s: Seq<u8>, sep: u8)
    ensures
        split_on(s, sep).len() >= 1,
    decreases s.len(),
{
    if s.len() > 0 {
        lemma_split_on_len(s.drop_first(), sep);
    }
}

pub open spec fn is_digit(b: u8) -> bool {
    48 <= b <= 57
}

pub open spec fn all_digits(s: Seq<u8>) -> bool {
    forall|i: int| 0 <= i < s.len() ==> is_digit(#[trigger] s[i])
}

/// The number a digit string denotes.
pub open spec fn digits_val(s: Seq<u8>) -> int
    decreases s.len(),
{
    if s.len() == 0 {
        0
    } else {
        digits_val(s.drop_last()) * 10 + (s.last() - 48)
    }
}

/// An unsigned decimal integer field: at least one digit, nothing else,
/// and a value that fits the machine word.
pub open spec fn spec_parse_u64(s: Seq<u8>) -> Option<u64> {
    if s.len() > 0 && all_digits(s) && digits_val(s) <= u64::MAX {
        Some(digits_val(s) as u64)
    } else {
        None
    }
}

/// A digit prefix never denotes more than the whole string.
proof fn lemma_digits_val_prefix(s: Seq<u8>, i: int)
    requires
        all_digits(s),
        0 <= i <= s.len(),
    ensures
        0 <= digits_val(s.subrange(0, i)) <= digits_val(s),
        0 <= digits_val(s),
    decreases s.len() - i,
{
    if i == s.len() {
        assert(s.subrange(0, i) =~= s);
        lemma_digits_val_nonneg(s);
    } else {
        lemma_digits_val_prefix(s, i + 1);
        assert(s.subrange(0, i + 1).drop_last() =~= s.subrange(0, i));
        assert(digits_val(s.subrange(0, i + 1)) == digits_val(s.subrange(0, i)) * 10 + (s[i] - 48));
        lemma_digits_val_nonneg(s.subrange(0, i));
    }
}

proof fn lemma_digits_val_nonneg(s: Seq<u8>)
    requires
        all_digits(s),
    ensures
        digits_val(s) >= 0,
    decreases s.len(),
{
    if s.len() > 0 {
        assert(all_digits(s.drop_last())) by {
            assert(forall|i: int|
                0 <= i < s.len() - 1 ==> s.drop_last()[i] == #[trigger] s[i]);
        }
        lemma_digits_val_nonneg(s.drop_last());
    }
}

/// Parses an unsigned decimal integer field, exactly as
/// `spec_parse_u64` describes.
#[verifier::loop_isolation(false)]
pub fn parse_u64_field(s: &[u8]) -> (r: Option<u64>)
    ensures
        r == spec_parse_u64(s@),
{
    if s.len() == 0 {
        return None;
    }
    let mut acc: u64 = 0;
    let mut i: usize = 0;
    while i < s.len()
        invariant
            i <= s@.len(),
            all_digits(s@.subrange(0, i as int)),
            acc == digits_val(s@.subrange(0, i as int)),
        decreases s@.len() - i,
    {
        let b = s[i];
        if b < 48 || b > 57 {
            proof {
                assert(!is_digit(s@[i as int]));
            }
            return None;
        }
        let d = b - 48;
        if acc > (u64::MAX - (d as u64)) / 10 {
            proof {
                assert(all_digits(s@.subrange(0, i as int + 1))) by {
                    assert(forall|k: int|
                        0 <= k < i as int + 1 ==> s@.subrange(0, i as int + 1)[k] == #[trigger] s@[k]);
                }
                assert(s@.subrange(0, i as int + 1).drop_last() =~= s@.subrange(0, i as int));
                assert(digits_val(s@.subrange(0, i as int + 1)) == acc * 10 + d);
                assert(acc * 10 + d > u64::MAX) by {
                    assert(acc >= (u64::MAX - d) / 10 + 1);
                    assert(((u64::MAX - d) / 10 + 1) * 10 >= (u64::MAX - d) + 1) by (nonlinear_arith);
                    assert(acc * 10 >= ((u64::MAX - d) / 10 + 1) * 10) by (nonlinear_arith)
                        requires
                            acc >= (u64::MAX - d) / 10 + 1,
                    ;
                }
                if all_digits(s@) {
                    lemma_digits_val_prefix(s@, i as int + 1);
                    assert(digits_val(s@) > u64::MAX);
                }
            }
            return None;
        }
        proof {
            assert(acc * 10 + d <= u64::MAX) by {
                assert(acc <= (u64::MAX - d) / 10);
                assert(((u64::MAX - d) as int / 10) * 10 <= (u64::MAX - d) as int);
                assert(acc * 10 <= ((u64::MAX - d) as int / 10) * 10) by (nonlinear_arith)
                    requires
                        acc <= (u64::MAX - d) as int / 10,
                ;
            }
            assert(s@.subrange(0, i as int + 1).drop_last() =~= s@.subrange(0, i as int));
            assert(all_digits(s@.subrange(0, i as int + 1))) by {
                assert(forall|k: int|
                    0 <= k < i as int + 1 ==> s@.subrange(0, i as int + 1)[k] == #[trigger] s@[k]);
            }
        }
        acc = acc * 10 + (d as u64);
        i = i + 1;
    }
    proof {
        assert(s@.subrange(0, s@.len() as int) =~= s@);
    }
    Some(acc)
}

/// Letter case folded to lower case, for the boolean field alone.
pub open spec fn to_lower_byte(b: u8) -> u8 {
    if 65 <= b <= 90 {
        (b + 32) as u8
    } else {
        b
    }
}

/// The boolean field: `true` or `false` in any letter case.
pub open spec fn spec_parse_bool(s: Seq<u8>) -> Option<bool> {
    let folded = s.map_values(|b: u8| to_lower_byte(b));
    if folded =~= seq![116u8, 114u8, 117u8, 101u8] {
        Some(true)
    } else if folded =~= seq![102u8, 97u8, 108u8, 115u8, 101u8] {
        Some(false)
    } else {
        None
    }
}

fn lower_byte(b: u8) -> (r: u8)
    ensures
        r == to_lower_byte(b),
{
    if b >= 65 && b <= 90 {
        b + 32
    } else {
        b
    }
}

/// Parses the boolean field, exactly as `spec_parse_bool` describes.
pub fn parse_bool_field(s: &[u8]) -> (r: Option<bool>)
    ensures
        r == spec_parse_bool(s@),
{
    let ghost folded = s@.map_values(|b: u8| to_lower_byte(b));
    if s.len() == 4 {
        let ok = lower_byte(s[0]) == 116 && lower_byte(s[1]) == 114 && lower_byte(s[2]) == 117
            && lower_byte(s[3]) == 101;
        proof {
            assert(folded.len() == 4);
            assert(folded[0] == to_lower_byte(s@[0]));
            assert(folded[1] == to_lower_byte(s@[1]));
            assert(folded[2] == to_lower_byte(s@[2]));
            assert(folded[3] == to_lower_byte(s@[3]));
        }
        if ok {
            Some(true)
        } else {
            None
        }
    } else if s.len() == 5 {
        let ok = lower_byte(s[0]) == 102 && lower_byte(s[1]) == 97 && lower_byte(s[2]) == 108
            && lower_byte(s[3]) == 115 && lower_byte(s[4]) == 101;
        proof {
            assert(folded.len() == 5);
            assert(folded[0] == to_lower_byte(s@[0]));
            assert(folded[1] == to_lower_byte(s@[1]));
            assert(folded[2] == to_lower_byte(s@[2]));
            assert(folded[3] == to_lower_byte(s@[3]));
            assert(folded[4] == to_lower_byte(s@[4]));
        }
        if ok {
            Some(false)
        } else {
            None
        }
    } else {
        proof {
            assert(folded.len() == s@.len());
        }
        None
    }
}

/// Splits a row into its fields, exactly as `split_commas` describes.
pub fn split_fields(s: &[u8]) -> (r: Vec<Vec<u8>>)
    ensures
        r.deep_view() == split_commas(s@),
{
    split_fields_on(s, COMMA)
}

/// Splits a byte string at a separator, exactly as `split_on`
/// describes.
#[verifier::loop_isolation(false)]
pub fn split_fields_on(s: &[u8], sep: u8) -> (r: Vec<Vec<u8>>)
    ensures
        r.deep_view() == split_on(s@, sep),
{
    let mut done: Vec<Vec<u8>> = Vec::new();
    let mut cur: Vec<u8> = Vec::new();
    let mut i: usize = 0;
    proof {
        assert(s@.subrange(0, s@.len() as int) =~= s@);
    }
    while i < s.len()
        invariant
            i <= s@.len(),
            ({
                let suffix = split_on(s@.subrange(i as int, s@.len() as int), sep);
                split_on(s@, sep) =~~= done.deep_view() + seq![cur@ + suffix[0]]
                    + suffix.drop_first()
            }),
        decreases s@.len() - i,
    {
        let ghost suffix = split_on(s@.subrange(i as int, s@.len() as int), sep);
        let ghost suffix2 = split_on(s@.subrange(i as int + 1, s@.len() as int), sep);
        proof {
            assert(s@.subrange(i as int, s@.len() as int).drop_first() =~= s@.subrange(
                i as int + 1,
                s@.len() as int,
            ));
            assert(s@.subrange(i as int, s@.len() as int)[0] == s@[i as int]);
            lemma_split_on_len(s@.subrange(i as int + 1, s@.len() as int), sep);
        }
        let b = s[i];
        if b == sep {
            proof {
                assert(suffix =~~= seq![Seq::<u8>::empty()] + suffix2);
                assert(suffix[0] =~= Seq::<u8>::empty());
                assert(suffix.drop_first() =~~= suffix2);
            }
            let ghost done0 = done.deep_view();
            let ghost cur0 = cur@;
            done.push(cur);
            cur = Vec::new();
            proof {
                assert(done.deep_view() =~~= done0.push(cur0));
                assert(cur0 + suffix[0] =~= cur0);
                assert(suffix2 =~~= seq![suffix2[0]] + suffix2.drop_first());
                assert(done0 + seq![cur0 + suffix[0]] + suffix.drop_first() =~~= done0.push(cur0)
                    + seq![cur@ + suffix2[0]] + suffix2.drop_first());
                assert(split_on(s@, sep) =~~= done.deep_view() + seq![cur@ + suffix2[0]]
                    + suffix2.drop_first());
            }
        } else {
            proof {
                assert(suffix =~~= seq![seq![s@[i as int]] + suffix2[0]] + suffix2.drop_first());
                assert(suffix[0] =~= seq![s@[i as int]] + suffix2[0]);
                assert(suffix.drop_first() =~~= suffix2.drop_first());
            }
            let ghost cur0 = cur@;
            cur.push(b);
            proof {
                assert(cur@ =~= cur0.push(b));
                assert(cur@ + suffix2[0] =~= cur0 + suffix[0]);
                assert(done.deep_view() + seq![cur0 + suffix[0]] + suffix.drop_first()
                    =~~= done.deep_view() + seq![cur@ + suffix2[0]] + suffix2.drop_first());
                assert(split_on(s@, sep) =~~= done.deep_view() + seq![cur@ + suffix2[0]]
                    + suffix2.drop_first());
            }
        }
        i = i + 1;
    }
    proof {
        let suffix = split_on(s@.subrange(s@.len() as int, s@.len() as int), sep);
        assert(s@.subrange(s@.len() as int, s@.len() as int) =~= Seq::<u8>::empty());
        assert(suffix =~~= seq![Seq::<u8>::empty()]);
        assert(suffix[0] =~= Seq::<u8>::empty());
        assert(cur@ + suffix[0] =~= cur@);
        assert(suffix.drop_first() =~~= Seq::<Seq<u8>>::empty());
    }
    let ghost done0 = done.deep_view();
    let ghost cur0 = cur@;
    done.push(cur);
    proof {
        assert(done.deep_view() =~~= done0.push(cur0));
        assert(split_on(s@, sep) =~~= done.deep_view());
    }
    done
}

pub const DOT: u8 = 46;

/// `n` zero digits (none for a non-positive `n`).
pub open spec fn zero_digits(n: int) -> Seq<u8> {
    Seq::new(
        if n >= 0 {
            n as nat
        } else {
            0
        },
        |i: int| 48u8,
    )
}

/// The digit string a decimal number denotes in fixed-point units with
/// `scale` fractional digits: the integer digits, then the fraction
/// truncated or zero-padded to exactly `scale` digits.
pub open spec fn scaled_digits(ip: Seq<u8>, fp: Seq<u8>, scale: int) -> Seq<u8> {
    if fp.len() >= scale {
        ip + fp.subrange(0, scale)
    } else {
        ip + fp + zero_digits(scale - fp.len())
    }
}

/// A decimal number field read into fixed-point units with `scale`
/// fractional digits: digits with at most one decimal point, at least
/// one digit landing in the scaled string, fraction digits beyond the
/// scale dropped; the value must fit the machine word.
pub open spec fn spec_parse_scaled(s: Seq<u8>, scale: u64) -> Option<u64> {
    let parts = split_on(s, DOT);
    if parts.len() == 1 && parts[0].len() > 0 && all_digits(parts[0]) {
        spec_parse_u64(scaled_digits(parts[0], Seq::empty(), scale as int))
    } else if parts.len() == 2 && all_digits(parts[0]) && all_digits(parts[1]) {
        spec_parse_u64(scaled_digits(parts[0], parts[1], scale as int))
    } else {
        None
    }
}

/// Parses a decimal number field into fixed-point units, exactly as
/// `spec_parse_scaled` describes. The scale is bounded because eleven
/// or more fractional digits of a nonzero number can never fit.
#[verifier::loop_isolation(false)]
pub fn parse_scaled_field(s: &[u8], scale: u64) -> (r: Option<u64>)
    requires
        scale <= 19,
    ensures
        r == spec_parse_scaled(s@, scale),
{
    let parts = split_fields_on(s, DOT);
    proof {
        assert(parts.deep_view().len() == parts@.len());
        lemma_split_on_len(s@, DOT);
    }
    if parts.len() != 1 && parts.len() != 2 {
        return None;
    }
    proof {
        assert(parts.deep_view()[0] == parts@[0].deep_view());
        assert((parts@[0])@ =~= split_on(s@, DOT)[0]);
        if parts@.len() == 2 {
            assert(parts.deep_view()[1] == parts@[1].deep_view());
            assert((parts@[1])@ =~= split_on(s@, DOT)[1]);
        }
    }
    let ip = &parts[0];
    let mut k: usize = 0;
    while k < ip.len()
        invariant
            k <= ip@.len(),
            all_digits(ip@.subrange(0, k as int)),
        decreases ip@.len() - k,
    {
        let b = ip[k];
        if b < 48 || b > 57 {
            proof {
                assert(!is_digit(ip@[k as int]));
            }
            return None;
        }
        proof {
            assert(all_digits(ip@.subrange(0, k as int + 1))) by {
                assert(forall|m: int|
                    0 <= m < k as int + 1 ==> ip@.subrange(0, k as int + 1)[m] == #[trigger] ip@[m]);
            }
        }
        k = k + 1;
    }
    proof {
        assert(ip@.subrange(0, ip@.len() as int) =~= ip@);
    }
    if parts.len() == 1 && ip.len() == 0 {
        return None;
    }
    let mut padded: Vec<u8> = Vec::new();
    let mut k: usize = 0;
    while k < ip.len()
        invariant
            k <= ip@.len(),
            padded@ == ip@.subrange(0, k as int),
        decreases ip@.len() - k,
    {
        padded.push(ip[k]);
        proof {
            assert(padded@ =~= ip@.subrange(0, k as int + 1));
        }
        k = k + 1;
    }
    proof {
        assert(padded@ =~= ip@);
    }
    if parts.len() == 2 {
        let fp = &parts[1];
        let mut k: usize = 0;
        while k < fp.len()
            invariant
                k <= fp@.len(),
                all_digits(fp@.subrange(0, k as int)),
            decreases fp@.len() - k,
        {
            let b = fp[k];
            if b < 48 || b > 57 {
                proof {
                    assert(!is_digit(fp@[k as int]));
                }
                return None;
            }
            proof {
                assert(all_digits(fp@.subrange(0, k as int + 1))) by {
                    assert(forall|m: int|
                        0 <= m < k as int + 1 ==> fp@.subrange(0, k as int + 1)[m] == #[trigger] fp@[
                        m]);
                }
            }
            k = k + 1;
        }
        proof {
            assert(fp@.subrange(0, fp@.len() as int) =~= fp@);
        }
        let used: usize = if (fp.len() as u64) >= scale {
            scale as usize
        } else {
            fp.len()
        };
        let mut k: usize = 0;
        while k < used
            invariant
                k <= used,
                used <= fp@.len(),
                padded@ == ip@ + fp@.subrange(0, k as int),
            decreases used - k,
        {
            padded.push(fp[k]);
            proof {
                assert(padded@ =~= ip@ + fp@.subrange(0, k as int + 1));
            }
            k = k + 1;
        }
        let mut z: u64 = if (fp.len() as u64) >= scale {
            0
        } else {
            scale - (fp.len() as u64)
        };
        let ghost z0 = z;
        proof {
            assert(padded@ + zero_digits(0) =~= padded@);
        }
        while z > 0
            invariant
                z <= z0,
                padded@ == ip@ + fp@.subrange(
                    0,
                    if fp@.len() >= scale {
                        scale as int
                    } else {
                        fp@.len() as int
                    },
                ) + zero_digits(z0 - z),
            decreases z,
        {
            padded.push(48);
            proof {
                assert(padded@ =~= ip@ + fp@.subrange(
                    0,
                    if fp@.len() >= scale {
                        scale as int
                    } else {
                        fp@.len() as int
                    },
                ) + zero_digits(z0 - z + 1));
            }
            z = z - 1;
        }
        proof {
            assert(padded@ =~= scaled_digits(ip@, fp@, scale as int));
        }
        parse_u64_field(padded.as_slice())
    } else {
        let mut z: u64 = scale;
        let ghost z0 = z;
        proof {
            assert(padded@ + zero_digits(0) =~= padded@);
        }
        while z > 0
            invariant
                z <= z0,
                padded@ == ip@ + zero_digits(z0 - z),
            decreases z,
        {
            padded.push(48);
            proof {
                assert(padded@ =~= ip@ + zero_digits(z0 - z + 1));
            }
            z = z - 1;
        }
        proof {
            assert(padded@ =~= scaled_digits(ip@, Seq::empty(), scale as int));
        }
        parse_u64_field(padded.as_slice())
    }
}

/// The trade tick a row denotes:
/// `id,price,qty,base_qty,time_ms,is_buyer_maker`, extra fields
/// ignored. Prices and quantities are decimal numbers read into
/// fixed-point units with `scale` fractional digits; id and timestamp
/// are plain integers.
pub open spec fn spec_parse_trade_line(s: Seq<u8>, symbol: String, scale: u64) -> Option<BinanceTradeTick> {
    let fs = split_commas(s);
    if fs.len() >= 6 {
        match (
            spec_parse_u64(fs[0]),
            spec_parse_scaled(fs[1], scale),
            spec_parse_scaled(fs[2], scale),
            spec_parse_scaled(fs[3], scale),
            spec_parse_u64(fs[4]),
            spec_parse_bool(fs[5]),
        ) {
            (
                Some(id),
                Some(price),
                Some(qty),
                Some(base_qty),
                Some(time),
                Some(is_buyer_maker),
            ) => Some(
                BinanceTradeTick { id, price, qty, base_qty, time, is_buyer_maker, symbol },
            ),
            _ => None,
        }
    } else {
        None
    }
}

/// The book ticker a row denotes: `update_id,best_bid_price,
/// best_bid_qty,best_ask_price,best_ask_qty,transaction_time,
/// event_time`, extra fields ignored. Prices and quantities are read
/// into fixed-point units with `scale` fractional digits.
pub open spec fn spec_parse_ticker_line(s: Seq<u8>, symbol: String, scale: u64) -> Option<BinanceBookTicker> {
    let fs = split_commas(s);
    if fs.len() >= 7 {
        match (
            spec_parse_u64(fs[0]),
            spec_parse_scaled(fs[1], scale),
            spec_parse_scaled(fs[2], scale),
            spec_parse_scaled(fs[3], scale),
            spec_parse_scaled(fs[4], scale),
            spec_parse_u64(fs[5]),
            spec_parse_u64(fs[6]),
        ) {
            (
                Some(update_id),
                Some(best_bid_price),
                Some(best_bid_qty),
                Some(best_ask_price),
                Some(best_ask_qty),
                Some(transaction_time),
                Some(event_time),
            ) => Some(
                BinanceBookTicker {
                    update_id,
                    best_bid_price,
                    best_bid_qty,
                    best_ask_price,
                    best_ask_qty,
                    transaction_time,
                    event_time,
                    symbol,
                },
            ),
            _ => None,
        }
    } else {
        None
    }
}

/// Parses one trade row, exactly as `spec_parse_trade_line` describes.
/// A row that does not parse is the caller's cue to skip it.
pub fn parse_trade_line(s: &[u8], symbol: String, scale: u64) -> (r: Option<BinanceTradeTick>)
    requires
        scale <= 19,
    ensures
        r == spec_parse_trade_line(s@, symbol, scale),
{
    let fields = split_fields(s);
    proof {
        assert(fields.deep_view().len() == fields@.len());
    }
    if fields.len() < 6 {
        return None;
    }
    proof {
        assert forall|k: int| 0 <= k < 6 implies (#[trigger] fields@[k])@ == split_commas(s@)[k] by {
            assert(fields.deep_view()[k] == fields@[k].deep_view());
        }
    }
    let id = parse_u64_field(fields[0].as_slice());
    let price = parse_scaled_field(fields[1].as_slice(), scale);
    let qty = parse_scaled_field(fields[2].as_slice(), scale);
    let base_qty = parse_scaled_field(fields[3].as_slice(), scale);
    let time = parse_u64_field(fields[4].as_slice());
    let is_buyer_maker = parse_bool_field(fields[5].as_slice());
    match (id, price, qty, base_qty, time, is_buyer_maker) {
        (Some(id), Some(price), Some(qty), Some(base_qty), Some(time), Some(is_buyer_maker)) => Some(
            BinanceTradeTick { id, price, qty, base_qty, time, is_buyer_maker, symbol },
        ),
        _ => None,
    }
}

/// Parses one book-ticker row, exactly as `spec_parse_ticker_line`
/// describes.
pub fn parse_ticker_line(s: &[u8], symbol: String, scale: u64) -> (r: Option<BinanceBookTicker>)
    requires
        scale <= 19,
    ensures
        r == spec_parse_ticker_line(s@, symbol, scale),
{
    let fields = split_fields(s);
    proof {
        assert(fields.deep_view().len() == fields@.len());
    }
    if fields.len() < 7 {
        return None;
    }
    proof {
        assert forall|k: int| 0 <= k < 7 implies (#[trigger] fields@[k])@ == split_commas(s@)[k] by {
            assert(fields.deep_view()[k] == fields@[k].deep_view());
        }
    }
    let update_id = parse_u64_field(fields[0].as_slice());
    let best_bid_price = parse_scaled_field(fields[1].as_slice(), scale);
    let best_bid_qty = parse_scaled_field(fields[2].as_slice(), scale);
    let best_ask_price = parse_scaled_field(fields[3].as_slice(), scale);
    let best_ask_qty = parse_scaled_field(fields[4].as_slice(), scale);
    let transaction_time = parse_u64_field(fields[5].as_slice());
    let event_time = parse_u64_field(fields[6].as_slice());
    match (
        update_id,
        best_bid_price,
        best_bid_qty,
        best_ask_price,
        best_ask_qty,
        transaction_time,
        event_time,
    ) {
        (
            Some(update_id),
            Some(best_bid_price),
            Some(best_bid_qty),
            Some(best_ask_price),
            Some(best_ask_qty),
            Some(transaction_time),
            Some(event_time),
        ) => Some(
            BinanceBookTicker {
                update_id,
                best_bid_price,
                best_bid_qty,
                best_ask_price,
                best_ask_qty,
                transaction_time,
                event_time,
                symbol,
            },
        ),
        _ => None,
    }
}

/// The letters of `trades`, as bytes.
pub open spec fn trades_marker() -> Seq<u8> {
    seq![116u8, 114u8, 97u8, 100u8, 101u8, 115u8]
}

/// The letters of `bookticker`, as bytes (archive naming).
pub open spec fn bookticker_marker() -> Seq<u8> {
    seq![98u8, 111u8, 111u8, 107u8, 116u8, 105u8, 99u8, 107u8, 101u8, 114u8]
}

/// The letters of `bookTicker`, as bytes (plain-file naming).
pub open spec fn book_ticker_marker() -> Seq<u8> {
    seq![98u8, 111u8, 111u8, 107u8, 84u8, 105u8, 99u8, 107u8, 101u8, 114u8]
}

/// A file name holding `trades` marks a trade tape.
pub fn trade_file_name_matched(name: &[u8]) -> (r: bool)
    ensures
        r == contains_sub(name@, trades_marker()),
{
    let mut sub: Vec<u8> = Vec::new();
    sub.push(116);
    sub.push(114);
    sub.push(97);
    sub.push(100);
    sub.push(101);
    sub.push(115);
    proof {
        assert(sub@ =~= trades_marker());
    }
    find_sub(name, sub.as_slice())
}

/// A file name holding `bookticker` (for an archive) or `bookTicker`
/// (for a plain file) marks a book-ticker tape.
pub fn ticker_file_name_matched(name: &[u8], is_archive: bool) -> (r: bool)
    ensures
        r == if is_archive {
            contains_sub(name@, bookticker_marker())
        } else {
            contains_sub(name@, book_ticker_marker())
        },
{
    let mut sub: Vec<u8> = Vec::new();
    sub.push(98);
    sub.push(111);
    sub.push(111);
    sub.push(107);
    if is_archive {
        sub.push(116);
    } else {
        sub.push(84);
    }
    sub.push(105);
    sub.push(99);
    sub.push(107);
    sub.push(101);
    sub.push(114);
    proof {
        if is_archive {
            assert(sub@ =~= bookticker_marker());
        } else {
            assert(sub@ =~= book_ticker_marker());
        }
    }
    find_sub(name, sub.as_slice())
}

/// An archive must hold exactly one member to be a usable tape.
pub fn archive_member_count_ok(n: usize) -> (r: bool)
    ensures
        r == (n == 1),
{
    n == 1
}

/// Whether `sub` occurs in `s`.
pub open spec fn contains_sub(s: Seq<u8>, sub: Seq<u8>) -> bool {
    exists|i: int|
        0 <= i <= s.len() - sub.len() && #[trigger] s.subrange(i, i + sub.len()) =~= sub
}

/// Substring search, exactly as `contains_sub` describes.
#[verifier::loop_isolation(false)]
pub fn find_sub(s: &[u8], sub: &[u8]) -> (r: bool)
    ensures
        r == contains_sub(s@, sub@),
{
    if sub.len() > s.len() {
        proof {
            assert(!contains_sub(s@, sub@));
        }
        return false;
    }
    let mut i: usize = 0;
    while i <= s.len() - sub.len()
        invariant
            sub@.len() <= s@.len(),
            i <= s@.len() - sub@.len() + 1,
            forall|k: int|
                0 <= k < i ==> !(#[trigger] s@.subrange(k, k + sub@.len()) =~= sub@),
        decreases s@.len() - sub@.len() + 1 - i,
    {
        let mut j: usize = 0;
        let mut matched = true;
        while j < sub.len()
            invariant
                j <= sub@.len(),
                i + sub@.len() <= s@.len(),
                matched == (forall|k: int|
                    0 <= k < j ==> s@[i as int + k] == #[trigger] sub@[k]),
            decreases sub@.len() - j,
        {
            if s[i + j] != sub[j] {
                proof {
                    assert(s@[i as int + j as int] != sub@[j as int]);
                }
                matched = false;
                j = sub.len();
            } else {
                j = j + 1;
            }
        }
        if matched {
            proof {
                assert(s@.subrange(i as int, i as int + sub@.len()) =~= sub@);
            }
            return true;
        }
        proof {
            assert(!(s@.subrange(i as int, i as int + sub@.len()) =~= sub@)) by {
                let k = choose|k: int| 0 <= k < sub@.len() && s@[i as int + k] != sub@[k];
                assert(s@.subrange(i as int, i as int + sub@.len())[k] != sub@[k]);
            }
        }
        i = i + 1;
    }
    false
}

} // verus!
