use vstd::prelude::*;

use crate::kline::KlineSource;
use crate::rate_limiter::DEFAULT_RATE_LIMIT_PER_MIN;
use crate::timeframe::{tag_of, Timeframe};

verus! {

/// Capacity of each message queue unless configured otherwise.
pub const DEFAULT_CHANNEL_CAPACITY: usize = 1_024;

/// Base address of the exchange's REST API.
pub const API_BASE: &'static str = "https://api.binance.com";

/// Indicators as the dashboard names them.
#[derive(Clone, Copy, Debug, PartialEq, Eq, Hash, PartialOrd, Ord, Structural)]
pub enum IndicatorKind {
    Volatility,
    Rsi,
}

impl IndicatorKind {
    pub fn label(&self) -> (r: &'static str)
        ensures
            *self == IndicatorKind::Volatility ==> r@ == seq!['V', 'O', 'L', 'A', 'T', 'I', 'L', 'I', 'T', 'Y'],
            *self == IndicatorKind::Rsi ==> r@ == seq!['R', 'S', 'I'],
    {
        proof {
            reveal_strlit("VOLATILITY");
            reveal_strlit("RSI");
            assert("VOLATILITY"@ =~= seq!['V', 'O', 'L', 'A', 'T', 'I', 'L', 'I', 'T', 'Y']);
            assert("RSI"@ =~= seq!['R', 'S', 'I']);
        }
        match self {
            IndicatorKind::Volatility => "VOLATILITY",
            IndicatorKind::Rsi => "RSI",
        }
    }
}

/// Size presets of the dashboard.
#[derive(Clone, Copy, Debug, PartialEq, Eq, Structural)]
pub enum SizePreset {
    Xs,
    Sm,
    Md,
    Lg,
    Xl,
}

impl SizePreset {
    pub fn label(&self) -> (r: &'static str)
        ensures
            *self == SizePreset::Xs ==> r@ == seq!['X', 'S'],
            *self == SizePreset::Sm ==> r@ == seq!['S', 'M'],
            *self == SizePreset::Md ==> r@ == seq!['M', 'D'],
            *self == SizePreset::Lg ==> r@ == seq!['L', 'G'],
            *self == SizePreset::Xl ==> r@ == seq!['X', 'L'],
    {
        proof {
            reveal_strlit("XS");
            reveal_strlit("SM");
            reveal_strlit("MD");
            reveal_strlit("LG");
            reveal_strlit("XL");
            assert("XS"@ =~= seq!['X', 'S']);
            assert("SM"@ =~= seq!['S', 'M']);
            assert("MD"@ =~= seq!['M', 'D']);
            assert("LG"@ =~= seq!['L', 'G']);
            assert("XL"@ =~= seq!['X', 'L']);
        }
        match self {
            SizePreset::Xs => "XS",
            SizePreset::Sm => "SM",
            SizePreset::Md => "MD",
            SizePreset::Lg => "LG",
            SizePreset::Xl => "XL",
        }
    }
}

/// `"[ON]"` or `"[OFF]"`.
pub fn toggle_label(enabled: bool) -> (r: &'static str)
    ensures
        enabled ==> r@ == seq!['[', 'O', 'N', ']'],
        !enabled ==> r@ == seq!['[', 'O', 'F', 'F', ']'],
{
    proof {
        reveal_strlit("[ON]");
        reveal_strlit("[OFF]");
        assert("[ON]"@ =~= seq!['[', 'O', 'N', ']']);
        assert("[OFF]"@ =~= seq!['[', 'O', 'F', 'F', ']']);
    }
    if enabled {
        "[ON]"
    } else {
        "[OFF]"
    }
}

/// The tag of a timeframe as an owned string.
pub fn tf_label(tf: Timeframe) -> (r: String)
    ensures
        r@ == tag_of(tf),
{
    tf.to_string().to_owned()
}

/// Name of a bar field.
pub fn kline_source_label(source: KlineSource) -> (r: &'static str)
    ensures
        source == KlineSource::Open ==> r@ == seq!['O', 'p', 'e', 'n'],
        source == KlineSource::High ==> r@ == seq!['H', 'i', 'g', 'h'],
        source == KlineSource::Low ==> r@ == seq!['L', 'o', 'w'],
        source == KlineSource::Close ==> r@ == seq!['C', 'l', 'o', 's', 'e'],
{
    proof {
        reveal_strlit("Open");
        reveal_strlit("High");
        reveal_strlit("Low");
        reveal_strlit("Close");
        assert("Open"@ =~= seq!['O', 'p', 'e', 'n']);
        assert("High"@ =~= seq!['H', 'i', 'g', 'h']);
        assert("Low"@ =~= seq!['L', 'o', 'w']);
        assert("Close"@ =~= seq!['C', 'l', 'o', 's', 'e']);
    }
    match source {
        KlineSource::Open => "Open",
        KlineSource::High => "High",
        KlineSource::Low => "Low",
        KlineSource::Close => "Close",
    }
}

/// `current + delta`, saturating in `i16`, then held within `[min, max]`.
pub fn clamp_u16(current: u16, delta: i16, min: u16, max: u16) -> (r: u16)
    requires
        min <= max <= 0x7fff,
    ensures
        ({
            let raw = current as int + delta as int;
            let next = if current > 0x7fff {
                (current as int - 0x1_0000) + delta as int
            } else {
                raw
            };
            let sat = if next > 0x7fff { 0x7fff } else if next < -0x8000 { -0x8000 } else { next };
            r == if sat <= min { min as int } else if sat >= max { max as int } else { sat }
        }),
{
    let c: i16 = if current > 0x7fff { (current as i32 - 0x1_0000) as i16 } else { current as i16 };
    let sum = c as i32 + delta as i32;
    let next: i16 = if sum > 0x7fff { 0x7fff } else if sum < -0x8000 { -0x8000 } else { sum as i16 };
    if next <= min as i16 {
        return min;
    }
    if next >= max as i16 {
        return max;
    }
    next as u16
}

/// The exchange's name for a timeframe's interval.
#[derive(Clone, Debug)]
pub struct BinanceInterval(pub String);

impl BinanceInterval {
    pub fn as_str(&self) -> (r: &str)
        ensures
            r@ == self.0@,
    {
        self.0.as_str()
    }
}

impl From<Timeframe> for BinanceInterval {
    fn from(tf: Timeframe) -> (r: Self) {
        BinanceInterval(tf.to_string().to_owned())
    }
}

impl vstd::std_specs::convert::FromSpecImpl<Timeframe> for BinanceInterval {
    open spec fn obeys_from_spec() -> bool {
        false
    }

    open spec fn from_spec(tf: Timeframe) -> BinanceInterval {
        arbitrary()
    }
}

/// The interval name for `tf`.
pub fn interval_of(tf: Timeframe) -> (r: BinanceInterval)
    ensures
        r.0@ == tag_of(tf),
{
    BinanceInterval(tf.to_string().to_owned())
}

/// Settings of the REST adapter: base address and calls per minute.
#[derive(Debug, Clone)]
pub struct BinanceRestBuilder {
    pub base_url: String,
    pub rate_limit_per_minute: usize,
}

impl BinanceRestBuilder {
    pub fn new() -> (r: Self)
        ensures
            r.base_url@ == API_BASE@,
            r.rate_limit_per_minute == DEFAULT_RATE_LIMIT_PER_MIN,
    {
        BinanceRestBuilder { base_url: API_BASE.to_owned(), rate_limit_per_minute: DEFAULT_RATE_LIMIT_PER_MIN }
    }

    pub fn base_url(self, base_url: String) -> (r: Self)
        ensures
            r.base_url@ == base_url@,
            r.rate_limit_per_minute == self.rate_limit_per_minute,
    {
        BinanceRestBuilder { base_url, ..self }
    }

    /// Calls per minute, at least one.
    pub fn rate_limit_per_minute(self, max: usize) -> (r: Self)
        ensures
            r.base_url == self.base_url,
            r.rate_limit_per_minute == if max == 0 { 1 } else { max },
    {
        BinanceRestBuilder { rate_limit_per_minute: if max == 0 { 1 } else { max }, ..self }
    }
}

/// Capacity of one message queue, at least one.
#[derive(Debug, Clone, Copy)]
pub struct BusBuilder {
    pub capacity: usize,
}

/// Builder of the live-bar queue into the engine.
pub type EngineBusBuilder = BusBuilder;

/// Builder of the warmup-request queue.
pub type HistoryBusBuilder = BusBuilder;

/// Builder of the presentation queue.
pub type UiBusBuilder = BusBuilder;

/// Builder of the live-feed configuration queue.
pub type WsBusBuilder = BusBuilder;

impl BusBuilder {
    pub fn new() -> (r: Self)
        ensures
            r.capacity == DEFAULT_CHANNEL_CAPACITY,
    {
        BusBuilder { capacity: DEFAULT_CHANNEL_CAPACITY }
    }

    fn with_capacity(self, capacity: usize) -> (r: Self)
        ensures
            r.capacity == if capacity == 0 { 1 } else { capacity },
    {
        BusBuilder { capacity: if capacity == 0 { 1 } else { capacity } }
    }

    pub fn engine_capacity(self, capacity: usize) -> (r: Self)
        ensures
            r.capacity == if capacity == 0 { 1 } else { capacity },
    {
        self.with_capacity(capacity)
    }

    pub fn history_capacity(self, capacity: usize) -> (r: Self)
        ensures
            r.capacity == if capacity == 0 { 1 } else { capacity },
    {
        self.with_capacity(capacity)
    }

    pub fn ui_capacity(self, capacity: usize) -> (r: Self)
        ensures
            r.capacity == if capacity == 0 { 1 } else { capacity },
    {
        self.with_capacity(capacity)
    }

    pub fn ws_capacity(self, capacity: usize) -> (r: Self)
        ensures
            r.capacity == if capacity == 0 { 1 } else { capacity },
    {
        self.with_capacity(capacity)
    }
}

/// Linear congruential generator for deterministic sample data.
#[derive(Debug, Clone, Copy)]
pub struct Lcg {
    pub state: u64,
}

/// One step of the generator.
pub open spec fn lcg_step(s: u64) -> u64 {
    ((s as int * 6364136223846793005 + 1) % 0x1_0000_0000_0000_0000) as u64
}

impl Lcg {
    pub fn new(seed: u64) -> (r: Self)
        ensures
            r.state == seed,
    {
        Lcg { state: seed }
    }

    /// Advances the state and returns it.
    pub fn next(&mut self) -> (r: u64)
        ensures
            r == lcg_step(old(self).state),
            final(self).state == r,
    {
        let m = (self.state as u128 * 6364136223846793005u128) % 0x1_0000_0000_0000_0000u128;
        let s = ((m + 1) % 0x1_0000_0000_0000_0000u128) as u64;
        proof {
            assert(((self.state as int * 6364136223846793005) % 0x1_0000_0000_0000_0000 + 1)
                % 0x1_0000_0000_0000_0000 == (self.state as int * 6364136223846793005 + 1)
                % 0x1_0000_0000_0000_0000) by (nonlinear_arith);
        }
        self.state = s;
        s
    }

    /// An uppercase letter drawn from the next state.
    pub fn next_char(&mut self) -> (r: char)
        ensures
            final(self).state == lcg_step(old(self).state),
            r as int == 'A' as int + (final(self).state % 26),
    {
        let idx = (self.next() % 26) as u8;
        (65u8 + idx) as char
    }
}

/// Six uppercase letters drawn from `rng` followed by `USDT`.
pub fn generate_pair(rng: &mut Lcg) -> (r: String)
    ensures
        r@.len() == 10,
        forall|i: int| 0 <= i < 6 ==> 'A' <= #[trigger] r@[i] && r@[i] <= 'Z',
        r@.subrange(6, 10) == seq!['U', 'S', 'D', 'T'],
{
    let mut letters = String::new();
    let mut i: usize = 0;
    while i < 6
        invariant
            i <= 6,
            letters@.len() == i,
            forall|q: int| 0 <= q < i ==> 'A' <= #[trigger] letters@[q] && letters@[q] <= 'Z',
        decreases 6 - i,
    {
        let c = rng.next_char();
        let ghost before = letters@;
        letters.append(char_text(c).as_str());
        proof {
            assert(letters@ =~= before.push(c));
            assert(letters@[i as int] == c);
        }
        i = i + 1;
    }
    let ghost head = letters@;
    proof {
        reveal_strlit("USDT");
    }
    letters.append("USDT");
    proof {
        assert(letters@.subrange(6, 10) =~= seq!['U', 'S', 'D', 'T']);
        assert(forall|q: int| 0 <= q < 6 ==> letters@[q] == head[q]);
    }
    letters
}

/// Relies on char::to_string: the string of exactly that one character.
#[verifier::external_body]
fn char_text(c: char) -> (r: String)
    ensures
        r@ == seq![c],
{
    c.to_string()
}

/// Every timeframe in order, each paired with whether `enabled` lists it.
pub fn default_timeframe_toggles(enabled: &[Timeframe]) -> (r: Vec<(Timeframe, bool)>)
    ensures
        r@.len() == 7,
        forall|i: int| 0 <= i < 7 ==> (#[trigger] r@[i]).1 == enabled@.contains(r@[i].0),
        r@[0].0 == Timeframe::M1 && r@[1].0 == Timeframe::M5 && r@[2].0 == Timeframe::M15 && r@[3].0
            == Timeframe::M30 && r@[4].0 == Timeframe::H1 && r@[5].0 == Timeframe::H4 && r@[6].0
            == Timeframe::D1,
{
    let all = [
        Timeframe::M1,
        Timeframe::M5,
        Timeframe::M15,
        Timeframe::M30,
        Timeframe::H1,
        Timeframe::H4,
        Timeframe::D1,
    ];
    let mut out: Vec<(Timeframe, bool)> = Vec::new();
    let mut i: usize = 0;
    while i < 7
        invariant
            i <= 7,
            all@ == seq![Timeframe::M1, Timeframe::M5, Timeframe::M15, Timeframe::M30, Timeframe::H1, Timeframe::H4, Timeframe::D1],
            out@.len() == i,
            forall|q: int| 0 <= q < i ==> (#[trigger] out@[q]).0 == all@[q] && out@[q].1 == enabled@.contains(all@[q]),
        decreases 7 - i,
    {
        let tf = all[i];
        out.push((tf, contains_tf(enabled, tf)));
        i = i + 1;
    }
    out
}

fn contains_tf(tfs: &[Timeframe], tf: Timeframe) -> (r: bool)
    ensures
        r == tfs@.contains(tf),
{
    let mut i: usize = 0;
    while i < tfs.len()
        invariant
            i <= tfs@.len(),
            forall|q: int| 0 <= q < i ==> tfs@[q] != tf,
        decreases tfs@.len() - i,
    {
        if tfs[i] == tf {
            proof {
                assert(tfs@[i as int] == tf);
            }
            return true;
        }
        i = i + 1;
    }
    false
}

/// `n` spaces.
pub open spec fn spaces(n: nat) -> Seq<char> {
    Seq::new(n, |_i: int| ' ')
}

fn append_spaces(out: &mut String, n: usize)
    ensures
        final(out)@ == old(out)@ + spaces(n as nat),
{
    let mut i: usize = 0;
    while i < n
        invariant
            i <= n,
            out@ == old(out)@ + spaces(i as nat),
        decreases n - i,
    {
        proof {
            reveal_strlit(" ");
        }
        out.append(" ");
        proof {
            assert(out@ =~= old(out)@ + spaces((i + 1) as nat));
        }
        i = i + 1;
    }
}

/// `line` padded with spaces on both sides to `width` characters, the odd
/// space on the right; unchanged when it is already that wide.
pub fn center_within(line: &str, width: usize) -> (r: String)
    ensures
        line@.len() >= width ==> r@ == line@,
        line@.len() < width ==> r@ == spaces(((width - line@.len()) / 2) as nat) + line@ + spaces(
            ((width - line@.len()) - (width - line@.len()) / 2) as nat,
        ),
{
    let len = line.unicode_len();
    if len >= width {
        return line.to_owned();
    }
    let pad_left = (width - len) / 2;
    let pad_right = width - len - pad_left;
    let mut out = String::new();
    append_spaces(&mut out, pad_left);
    out.append(line);
    append_spaces(&mut out, pad_right);
    proof {
        assert(out@ =~= spaces(pad_left as nat) + line@ + spaces(pad_right as nat));
    }
    out
}

} // verus!
