use vstd::prelude::*;

use crate::config::str_eq;
use crate::decimal::{decimal_text, decimal_value, law_decimal_round_trip, parse_decimal};
use crate::kline::Kline;
use crate::messages::KlineEvent;
use crate::timeframe::{tag_of, Timeframe};

verus! {

/// Why a wire message could not be decoded.
#[derive(Debug, Clone, Copy, PartialEq, Eq, Structural)]
pub enum DecodeError {
    /// Not JSON, or a field is missing or of the wrong kind.
    Malformed,
    /// A numeric field is not a decimal that fits.
    BadNumber,
}

#[verifier::external_type_specification]
#[verifier::external_body]
pub struct ExValue(serde_json::Value);

/// Whether `serde_json::from_str` reads `raw` as one JSON document.
pub uninterp spec fn json_parses(raw: Seq<char>) -> bool;

/// The string that `Value::pointer(path)` then `Value::as_str` find in the document `raw`.
pub uninterp spec fn json_text_at(raw: Seq<char>, path: Seq<char>) -> Option<Seq<char>>;

/// The integer that `Value::pointer(path)` then `Value::as_i64` find in the document `raw`.
pub uninterp spec fn json_int_at(raw: Seq<char>, path: Seq<char>) -> Option<i64>;

/// The boolean that `Value::pointer(path)` then `Value::as_bool` find in the document `raw`.
pub uninterp spec fn json_bool_at(raw: Seq<char>, path: Seq<char>) -> Option<bool>;

/// The length of the array that the document `raw` is, if it is one.
pub uninterp spec fn json_row_count(raw: Seq<char>) -> Option<nat>;

/// The string at element `col` of element `row` of the document `raw`.
pub uninterp spec fn json_row_text(raw: Seq<char>, row: nat, col: nat) -> Option<Seq<char>>;

/// The integer at element `col` of element `row` of the document `raw`.
pub uninterp spec fn json_row_int(raw: Seq<char>, row: nat, col: nat) -> Option<i64>;

/// A parsed JSON document together with the text it was read from.
pub struct JsonDoc {
    text: String,
    value: serde_json::Value,
}

impl JsonDoc {
    /// The text the document was read from.
    pub closed spec fn source(&self) -> Seq<char> {
        self.text@
    }
}

/// Relies on serde_json::from_str: reads `raw` as one JSON document.
#[verifier::external_body]
fn parse_document(raw: &str) -> (r: Option<JsonDoc>)
    ensures
        r is Some == json_parses(raw@),
        r matches Some(d) ==> d.source() == raw@,
{
    match serde_json::from_str::<serde_json::Value>(raw) {
        Ok(value) => Some(JsonDoc { text: raw.to_string(), value }),
        Err(_) => None,
    }
}

/// Relies on serde_json's Value::pointer and Value::as_str: the string at `path`.
#[verifier::external_body]
fn text_at<'a>(doc: &'a JsonDoc, path: &str) -> (r: Option<&'a str>)
    ensures
        r matches Some(t) ==> json_text_at(doc.source(), path@) == Some(t@),
        r is None ==> json_text_at(doc.source(), path@) is None,
{
    match doc.value.pointer(path) {
        Some(v) => v.as_str(),
        None => None,
    }
}

/// Relies on serde_json's Value::pointer and Value::as_i64: the integer at `path`.
#[verifier::external_body]
fn int_at(doc: &JsonDoc, path: &str) -> (r: Option<i64>)
    ensures
        r == json_int_at(doc.source(), path@),
{
    match doc.value.pointer(path) {
        Some(v) => v.as_i64(),
        None => None,
    }
}

/// Relies on serde_json's Value::pointer and Value::as_bool: the boolean at `path`.
#[verifier::external_body]
fn bool_at(doc: &JsonDoc, path: &str) -> (r: Option<bool>)
    ensures
        r == json_bool_at(doc.source(), path@),
{
    match doc.value.pointer(path) {
        Some(v) => v.as_bool(),
        None => None,
    }
}

/// Relies on serde_json's Value::as_array: the number of rows of an array document.
#[verifier::external_body]
fn row_count(doc: &JsonDoc) -> (r: Option<usize>)
    ensures
        r matches Some(n) ==> json_row_count(doc.source()) == Some(n as nat),
        r is None ==> json_row_count(doc.source()) is None,
{
    match doc.value.as_array() {
        Some(rows) => Some(rows.len()),
        None => None,
    }
}

/// Relies on serde_json's Value::get and Value::as_str: the string at `[row][col]`.
#[verifier::external_body]
fn row_text(doc: &JsonDoc, row: usize, col: usize) -> (r: Option<&str>)
    ensures
        r matches Some(t) ==> json_row_text(doc.source(), row as nat, col as nat) == Some(t@),
        r is None ==> json_row_text(doc.source(), row as nat, col as nat) is None,
{
    match doc.value.get(row).and_then(|x| x.get(col)) {
        Some(v) => v.as_str(),
        None => None,
    }
}

/// Relies on serde_json's Value::get and Value::as_i64: the integer at `[row][col]`.
#[verifier::external_body]
fn row_int(doc: &JsonDoc, row: usize, col: usize) -> (r: Option<i64>)
    ensures
        r == json_row_int(doc.source(), row as nat, col as nat),
{
    match doc.value.get(row).and_then(|x| x.get(col)) {
        Some(v) => v.as_i64(),
        None => None,
    }
}

/// The timeframe whose tag is `s`, if any.
pub open spec fn timeframe_of_tag(s: Seq<char>) -> Option<Timeframe> {
    if s == tag_of(Timeframe::M1) {
        Some(Timeframe::M1)
    } else if s == tag_of(Timeframe::M5) {
        Some(Timeframe::M5)
    } else if s == tag_of(Timeframe::M15) {
        Some(Timeframe::M15)
    } else if s == tag_of(Timeframe::M30) {
        Some(Timeframe::M30)
    } else if s == tag_of(Timeframe::H1) {
        Some(Timeframe::H1)
    } else if s == tag_of(Timeframe::H4) {
        Some(Timeframe::H4)
    } else if s == tag_of(Timeframe::D1) {
        Some(Timeframe::D1)
    } else {
        None
    }
}

/// The bar that decimal texts of its prices and volume describe.
pub open spec fn bar_of_fields(
    o: Seq<char>,
    h: Seq<char>,
    l: Seq<char>,
    c: Seq<char>,
    v: Seq<char>,
    open_time: i64,
    closed: bool,
) -> Option<Kline> {
    match (decimal_value(o), decimal_value(h), decimal_value(l), decimal_value(c), decimal_value(v)) {
        (Some(o), Some(h), Some(l), Some(c), Some(v)) => Some(
            Kline {
                open: o as i64,
                high: h as i64,
                low: l as i64,
                close: c as i64,
                volume: v as i64,
                open_time,
                closed,
            },
        ),
        _ => None,
    }
}

/// Reads a timeframe tag such as `"15m"`.
pub fn parse_timeframe(interval: &str) -> (r: Option<Timeframe>)
    ensures
        r == timeframe_of_tag(interval@),
{
    proof {
        reveal_strlit("1m");
        reveal_strlit("5m");
        reveal_strlit("15m");
        reveal_strlit("30m");
        reveal_strlit("1h");
        reveal_strlit("4h");
        reveal_strlit("1d");
        assert("1m"@ =~= tag_of(Timeframe::M1));
        assert("5m"@ =~= tag_of(Timeframe::M5));
        assert("15m"@ =~= tag_of(Timeframe::M15));
        assert("30m"@ =~= tag_of(Timeframe::M30));
        assert("1h"@ =~= tag_of(Timeframe::H1));
        assert("4h"@ =~= tag_of(Timeframe::H4));
        assert("1d"@ =~= tag_of(Timeframe::D1));
    }
    if str_eq(interval, "1m") {
        Some(Timeframe::M1)
    } else if str_eq(interval, "5m") {
        Some(Timeframe::M5)
    } else if str_eq(interval, "15m") {
        Some(Timeframe::M15)
    } else if str_eq(interval, "30m") {
        Some(Timeframe::M30)
    } else if str_eq(interval, "1h") {
        Some(Timeframe::H1)
    } else if str_eq(interval, "4h") {
        Some(Timeframe::H4)
    } else if str_eq(interval, "1d") {
        Some(Timeframe::D1)
    } else {
        None
    }
}

/// Builds a bar from the decimal texts of its prices and volume.
pub fn kline_from_fields(
    o: &str,
    h: &str,
    l: &str,
    c: &str,
    v: &str,
    open_time: i64,
    closed: bool,
) -> (r: Option<Kline>)
    ensures
        r == bar_of_fields(o@, h@, l@, c@, v@, open_time, closed),
{
    let open = parse_decimal(o);
    let high = parse_decimal(h);
    let low = parse_decimal(l);
    let close = parse_decimal(c);
    let volume = parse_decimal(v);
    match (open, high, low, close, volume) {
        (Some(open), Some(high), Some(low), Some(close), Some(volume)) => Some(
            Kline { open, high, low, close, volume, open_time, closed },
        ),
        _ => None,
    }
}

/// What decoding the fields of a live kline gives: `BadNumber` when a number
/// does not decode, `Ok(None)` for an unknown timeframe tag, and otherwise the
/// event of that pair, timeframe and bar.
pub open spec fn event_decoded(
    r: Result<Option<KlineEvent>, DecodeError>,
    symbol: Seq<char>,
    interval: Seq<char>,
    open_time: i64,
    o: Seq<char>,
    h: Seq<char>,
    l: Seq<char>,
    c: Seq<char>,
    v: Seq<char>,
    closed: bool,
) -> bool {
    &&& bar_of_fields(o, h, l, c, v, open_time, closed) is None ==> r == Err::<
        Option<KlineEvent>,
        DecodeError,
    >(DecodeError::BadNumber)
    &&& bar_of_fields(o, h, l, c, v, open_time, closed) is Some && timeframe_of_tag(interval)
        is None ==> r == Ok::<Option<KlineEvent>, DecodeError>(None)
    &&& bar_of_fields(o, h, l, c, v, open_time, closed) is Some && timeframe_of_tag(interval)
        is Some ==> (r matches Ok(Some(e)) && e.pair@ == symbol && Some(e.timeframe)
        == timeframe_of_tag(interval) && Some(e.bar) == bar_of_fields(o, h, l, c, v, open_time, closed))
}

/// Decodes the fields of a live kline: a number that does not decode is an
/// error; an unknown timeframe tag drops the message (`Ok(None)`).
pub fn event_from_fields(
    symbol: &str,
    interval: &str,
    open_time: i64,
    o: &str,
    h: &str,
    l: &str,
    c: &str,
    v: &str,
    closed: bool,
) -> (r: Result<Option<KlineEvent>, DecodeError>)
    ensures
        event_decoded(r, symbol@, interval@, open_time, o@, h@, l@, c@, v@, closed),
{
    let bar = match kline_from_fields(o, h, l, c, v, open_time, closed) {
        None => return Err(DecodeError::BadNumber),
        Some(b) => b,
    };
    match parse_timeframe(interval) {
        None => Ok(None),
        Some(timeframe) => Ok(Some(KlineEvent { pair: symbol.to_owned(), timeframe, bar })),
    }
}

/// Writing a bar's prices and volume as decimal texts and reading them back
/// gives the same bar.
pub proof fn law_bar_round_trip(bar: Kline)
    requires
        bar.open >= 0,
        bar.high >= 0,
        bar.low >= 0,
        bar.close >= 0,
        bar.volume >= 0,
    ensures
        bar_of_fields(
            decimal_text(bar.open as nat),
            decimal_text(bar.high as nat),
            decimal_text(bar.low as nat),
            decimal_text(bar.close as nat),
            decimal_text(bar.volume as nat),
            bar.open_time,
            bar.closed,
        ) == Some(bar),
{
    law_decimal_round_trip(bar.open as int);
    law_decimal_round_trip(bar.high as int);
    law_decimal_round_trip(bar.low as int);
    law_decimal_round_trip(bar.close as int);
    law_decimal_round_trip(bar.volume as int);
}

/// Every field of a live kline frame is present in `raw`.
pub open spec fn envelope_complete(raw: Seq<char>) -> bool {
    &&& json_parses(raw)
    &&& json_text_at(raw, "/data/k/s"@) is Some
    &&& json_text_at(raw, "/data/k/i"@) is Some
    &&& json_int_at(raw, "/data/k/t"@) is Some
    &&& json_bool_at(raw, "/data/k/x"@) is Some
    &&& json_text_at(raw, "/data/k/o"@) is Some
    &&& json_text_at(raw, "/data/k/h"@) is Some
    &&& json_text_at(raw, "/data/k/l"@) is Some
    &&& json_text_at(raw, "/data/k/c"@) is Some
    &&& json_text_at(raw, "/data/k/v"@) is Some
}

/// Decodes one frame of the combined kline stream: `data.k` holds `s`, `i`,
/// `t`, `o`, `h`, `l`, `c`, `v` and `x`. A frame that is not JSON or lacks a
/// field is `Malformed`; otherwise the fields decode as `event_from_fields` does.
pub fn parse_kline(raw: &str) -> (r: Result<Option<KlineEvent>, DecodeError>)
    ensures
        !envelope_complete(raw@) ==> r == Err::<Option<KlineEvent>, DecodeError>(
            DecodeError::Malformed,
        ),
        envelope_complete(raw@) ==> event_decoded(
            r,
            json_text_at(raw@, "/data/k/s"@)->0,
            json_text_at(raw@, "/data/k/i"@)->0,
            json_int_at(raw@, "/data/k/t"@)->0,
            json_text_at(raw@, "/data/k/o"@)->0,
            json_text_at(raw@, "/data/k/h"@)->0,
            json_text_at(raw@, "/data/k/l"@)->0,
            json_text_at(raw@, "/data/k/c"@)->0,
            json_text_at(raw@, "/data/k/v"@)->0,
            json_bool_at(raw@, "/data/k/x"@)->0,
        ),
{
    let doc = match parse_document(raw) {
        None => return Err(DecodeError::Malformed),
        Some(d) => d,
    };
    let symbol = match text_at(&doc, "/data/k/s") {
        None => return Err(DecodeError::Malformed),
        Some(s) => s,
    };
    let interval = match text_at(&doc, "/data/k/i") {
        None => return Err(DecodeError::Malformed),
        Some(s) => s,
    };
    let open_time = match int_at(&doc, "/data/k/t") {
        None => return Err(DecodeError::Malformed),
        Some(t) => t,
    };
    let closed = match bool_at(&doc, "/data/k/x") {
        None => return Err(DecodeError::Malformed),
        Some(x) => x,
    };
    let o = match text_at(&doc, "/data/k/o") {
        None => return Err(DecodeError::Malformed),
        Some(s) => s,
    };
    let h = match text_at(&doc, "/data/k/h") {
        None => return Err(DecodeError::Malformed),
        Some(s) => s,
    };
    let l = match text_at(&doc, "/data/k/l") {
        None => return Err(DecodeError::Malformed),
        Some(s) => s,
    };
    let c = match text_at(&doc, "/data/k/c") {
        None => return Err(DecodeError::Malformed),
        Some(s) => s,
    };
    let v = match text_at(&doc, "/data/k/v") {
        None => return Err(DecodeError::Malformed),
        Some(s) => s,
    };
    event_from_fields(symbol, interval, open_time, o, h, l, c, v, closed)
}

/// Decodes one row of the REST kline listing: the open time and the decimal
/// texts of open, high, low, close and volume. Such bars are closed.
pub fn kline_from_row(
    open_time: i64,
    o: &str,
    h: &str,
    l: &str,
    c: &str,
    v: &str,
) -> (r: Result<Kline, DecodeError>)
    ensures
        r matches Ok(b) ==> Some(b) == bar_of_fields(o@, h@, l@, c@, v@, open_time, true),
        r is Err ==> r == Err::<Kline, DecodeError>(DecodeError::BadNumber) && bar_of_fields(
            o@,
            h@,
            l@,
            c@,
            v@,
            open_time,
            true,
        ) is None,
{
    match kline_from_fields(o, h, l, c, v, open_time, true) {
        None => Err(DecodeError::BadNumber),
        Some(b) => Ok(b),
    }
}

/// What row `i` of a REST listing decodes to: `Malformed` when a field is
/// missing, `BadNumber` when a decimal does not decode, else the closed bar.
pub open spec fn row_result(raw: Seq<char>, i: nat) -> Result<Kline, DecodeError> {
    match (
        json_row_int(raw, i, 0),
        json_row_text(raw, i, 1),
        json_row_text(raw, i, 2),
        json_row_text(raw, i, 3),
        json_row_text(raw, i, 4),
        json_row_text(raw, i, 5),
    ) {
        (Some(t), Some(o), Some(h), Some(l), Some(c), Some(v)) => match bar_of_fields(
            o,
            h,
            l,
            c,
            v,
            t,
            true,
        ) {
            Some(b) => Ok(b),
            None => Err(DecodeError::BadNumber),
        },
        _ => Err(DecodeError::Malformed),
    }
}

/// The first `k` rows decoded in order, or the error of the first that fails.
pub open spec fn rows_result(raw: Seq<char>, k: nat) -> Result<Seq<Kline>, DecodeError>
    decreases k,
{
    if k == 0 {
        Ok(Seq::empty())
    } else {
        match rows_result(raw, (k - 1) as nat) {
            Err(e) => Err(e),
            Ok(bs) => match row_result(raw, (k - 1) as nat) {
                Err(e) => Err(e),
                Ok(b) => Ok(bs.push(b)),
            },
        }
    }
}

/// What a REST listing decodes to: `Malformed` unless it is a JSON array, else its rows.
pub open spec fn listing_result(raw: Seq<char>) -> Result<Seq<Kline>, DecodeError> {
    if !json_parses(raw) {
        Err(DecodeError::Malformed)
    } else {
        match json_row_count(raw) {
            None => Err(DecodeError::Malformed),
            Some(n) => rows_result(raw, n),
        }
    }
}

/// Once a row fails, every longer prefix fails with the same error.
proof fn lemma_rows_error_stays(raw: Seq<char>, k: nat, n: nat)
    requires
        k <= n,
        rows_result(raw, k) is Err,
    ensures
        rows_result(raw, n) == rows_result(raw, k),
    decreases n - k,
{
    if k < n {
        lemma_rows_error_stays(raw, k, (n - 1) as nat);
    }
}

/// Decodes a REST kline listing: a JSON array of rows whose element 0 is the
/// open time and elements 1 to 5 the decimal texts of open, high, low, close
/// and volume. Every bar is closed; the order of the rows is kept.
pub fn parse_rest_klines(body: &str) -> (r: Result<Vec<Kline>, DecodeError>)
    ensures
        r matches Ok(bars) ==> listing_result(body@) == Ok::<Seq<Kline>, DecodeError>(bars@),
        r matches Err(e) ==> listing_result(body@) == Err::<Seq<Kline>, DecodeError>(e),
{
    let doc = match parse_document(body) {
        None => return Err(DecodeError::Malformed),
        Some(d) => d,
    };
    let n = match row_count(&doc) {
        None => return Err(DecodeError::Malformed),
        Some(n) => n,
    };
    let ghost src = body@;
    let mut out: Vec<Kline> = Vec::new();
    let mut i: usize = 0;
    while i < n
        invariant
            doc.source() == src,
            src == body@,
            json_parses(src),
            json_row_count(src) == Some(n as nat),
            i <= n,
            rows_result(src, i as nat) == Ok::<Seq<Kline>, DecodeError>(out@),
        decreases n - i,
    {
        let step = row_of(&doc, i);
        match step {
            Err(e) => {
                proof {
                    assert(rows_result(src, (i + 1) as nat) == Err::<Seq<Kline>, DecodeError>(e));
                    lemma_rows_error_stays(src, (i + 1) as nat, n as nat);
                }
                return Err(e);
            },
            Ok(bar) => {
                out.push(bar);
                proof {
                    assert(rows_result(src, (i + 1) as nat) == Ok::<Seq<Kline>, DecodeError>(out@));
                }
            },
        }
        i = i + 1;
    }
    Ok(out)
}

/// Decodes row `i` of a REST listing.
fn row_of(doc: &JsonDoc, i: usize) -> (r: Result<Kline, DecodeError>)
    ensures
        r == row_result(doc.source(), i as nat),
{
    let open_time = match row_int(doc, i, 0) {
        None => return Err(DecodeError::Malformed),
        Some(t) => t,
    };
    let o = match row_text(doc, i, 1) {
        None => return Err(DecodeError::Malformed),
        Some(s) => s,
    };
    let h = match row_text(doc, i, 2) {
        None => return Err(DecodeError::Malformed),
        Some(s) => s,
    };
    let l = match row_text(doc, i, 3) {
        None => return Err(DecodeError::Malformed),
        Some(s) => s,
    };
    let c = match row_text(doc, i, 4) {
        None => return Err(DecodeError::Malformed),
        Some(s) => s,
    };
    let v = match row_text(doc, i, 5) {
        None => return Err(DecodeError::Malformed),
        Some(s) => s,
    };
    kline_from_row(open_time, o, h, l, c, v)
}

} // verus!
