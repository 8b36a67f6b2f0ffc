//! The market-index dataset.
use crate::tr::{tr, tr_text};
use crate::util::{format_number_with_commas, nat_text, percent_text, pretty_precent, push_nat, round_div, with_commas};
use vstd::prelude::*;

verus! {

/// One economic index; figures in hundred-millionths, `None` for a figure
/// that is not a number.
#[derive(Clone, Debug)]
pub struct Market {
    pub name: String,
    pub value: Option<i64>,
    pub precent: Option<i64>,
}

#[derive(Clone, Debug)]
pub struct GreedFearData {
    pub value: String,
    pub timestamp: String,
}

#[derive(Clone, Debug)]
pub struct GreedFear {
    pub data: Vec<GreedFearData>,
}

/// Whole-market figures; the dominance share is in hundred-millionths of a
/// percent.
#[derive(Copy, Clone, Debug, PartialEq, Eq, Structural)]
pub struct Global {
    pub total_market_cap_usd: u64,
    pub total_24h_volume_usd: u64,
    pub bitcoin_percentage_of_market_cap: Option<i64>,
    pub last_updated: i64,
}

#[derive(Copy, Clone, Debug)]
pub struct GasFee {
    pub bitcoin: (u64, u64, u64),
    pub ethereum: u64,
}

#[derive(Clone, Debug)]
pub struct Crypto {
    pub greed_fear: GreedFear,
    pub global: Global,
    pub gas_fee: GasFee,
}

/// One snapshot of the market indices, with the errors met while fetching it.
#[derive(Clone, Debug)]
pub struct Stats {
    pub errors: Vec<String>,
    pub market: Vec<Market>,
    pub crypto: Crypto,
}

/// `parts` joined with `sep` between consecutive parts.
pub open spec fn joined(parts: Seq<Seq<char>>, sep: Seq<char>) -> Seq<char>
    decreases parts.len(),
{
    if parts.len() == 0 {
        Seq::empty()
    } else if parts.len() == 1 {
        parts[0]
    } else {
        joined(parts.drop_last(), sep) + sep + parts.last()
    }
}

pub open spec fn market_error_text(e: Seq<char>) -> Seq<char> {
    "fetch market error: "@ + e
}

pub open spec fn crypto_error_text(e: Seq<char>) -> Seq<char> {
    "fetch crypto stats error: "@ + e
}

/// The value of a run of decimal digits.
pub open spec fn digits_value(s: Seq<char>) -> int
    decreases s.len(),
{
    if s.len() == 0 {
        0
    } else {
        digits_value(s.drop_last()) * 10 + (s.last() as int - 48)
    }
}

/// The `u32` a text denotes: an optional `+`, then at least one decimal
/// digit, with a value that fits.
pub open spec fn u32_text_value(s: Seq<char>) -> Option<u32> {
    let body = if s.len() > 0 && s[0] == '+' { s.drop_first() } else { s };
    if body.len() > 0 && all_digits(body) && digits_value(body) <= u32::MAX {
        Some(digits_value(body) as u32)
    } else {
        None
    }
}

/// Digits only.
pub open spec fn all_digits(s: Seq<char>) -> bool {
    forall|i: int| 0 <= i < s.len() ==> '0' <= #[trigger] s[i] <= '9'
}

proof fn lemma_digits_value_nonneg(s: Seq<char>)
    requires
        all_digits(s),
    ensures
        digits_value(s) >= 0,
    decreases s.len(),
{
    if s.len() > 0 {
        let d = s.drop_last();
        assert(all_digits(d)) by {
            assert forall|i: int| 0 <= i < d.len() implies '0' <= #[trigger] d[i] <= '9' by {
                assert(d[i] == s[i]);
            }
        }
        lemma_digits_value_nonneg(d);
        assert('0' <= s[s.len() - 1]);
    }
}

/// A run of digits is worth at least any of its prefixes.
proof fn lemma_digits_value_prefix(s: Seq<char>, k: int)
    requires
        0 <= k <= s.len(),
        all_digits(s),
    ensures
        digits_value(s) >= digits_value(s.subrange(0, k)),
    decreases s.len(),
{
    if k < s.len() {
        let d = s.drop_last();
        assert(all_digits(d)) by {
            assert forall|i: int| 0 <= i < d.len() implies '0' <= #[trigger] d[i] <= '9' by {
                assert(d[i] == s[i]);
            }
        }
        lemma_digits_value_prefix(d, k);
        assert(d.subrange(0, k) =~= s.subrange(0, k));
        lemma_digits_value_nonneg(d);
        assert('0' <= s[s.len() - 1]);
    } else {
        assert(s.subrange(0, k) =~= s);
    }
}

/// Reads a `u32` written as an optional `+` and decimal digits.
fn parse_u32(s: &str) -> (r: Option<u32>)
    ensures
        r == u32_text_value(s@),
{
    let n = s.unicode_len();
    let start: usize = if n > 0 && s.get_char(0) == '+' { 1 } else { 0 };
    let ghost body = if s@.len() > 0 && s@[0] == '+' { s@.drop_first() } else { s@ };
    assert(body =~= s@.subrange(start as int, n as int));
    if start == n {
        return None;
    }
    let mut acc: u64 = 0;
    let mut i: usize = start;
    assert(body.subrange(0, 0) =~= Seq::<char>::empty());
    while i < n
        invariant
            n == s@.len(),
            start < n,
            start <= i <= n,
            body == s@.subrange(start as int, n as int),
            body == (if s@.len() > 0 && s@[0] == '+' { s@.drop_first() } else { s@ }),
            forall|j: int| 0 <= j < i - start ==> '0' <= #[trigger] body[j] <= '9',
            acc as int == digits_value(body.subrange(0, i - start)),
            acc <= u32::MAX,
        decreases n - i,
    {
        let c = s.get_char(i);
        assert(body[i - start] == c);
        if c < '0' || c > '9' {
            assert(!all_digits(body));
            return None;
        }
        let ghost pre = body.subrange(0, i - start);
        let ghost next = body.subrange(0, i - start + 1);
        assert(next.drop_last() =~= pre);
        assert(next.last() == c);
        acc = acc * 10 + (c as u32 - 48) as u64;
        i = i + 1;
        assert(acc as int == digits_value(next));
        if acc > 4294967295 {
            proof {
                if all_digits(body) {
                    lemma_digits_value_prefix(body, i - start);
                    assert(digits_value(body) > u32::MAX);
                }
            }
            return None;
        }
    }
    assert(body.subrange(0, n - start) =~= body);
    Some(acc as u32)
}

/// A greed-and-fear reading counts as greed from 50 up; a reading that is
/// not a number counts as 0.
pub open spec fn greed_is_up(v: Seq<char>) -> bool {
    match u32_text_value(v) {
        Some(n) => n >= 50,
        None => false,
    }
}

/// One labelled line of the index page; `is_up` picks the rising colour.
#[derive(Clone, Debug)]
pub struct UiItem {
    pub name: String,
    pub value: String,
    pub is_up: bool,
}

pub open spec fn btc_dominant(p: Option<i64>) -> bool {
    p matches Some(v) && v >= 5000000000
}

pub open spec fn gas_text(b: (u64, u64, u64)) -> Seq<char> {
    nat_text(b.0 as nat) + "/"@ + nat_text(b.1 as nat) + "/"@ + nat_text(b.2 as nat) + " vSat"@
}

pub open spec fn gwei_text(wei: u64) -> Seq<char> {
    nat_text(round_div(wei as nat, 1000000000)) + " GWei"@
}

/// No readings: zero figures, zero fees and an empty greed-and-fear
/// history.
pub open spec fn is_zero_crypto(c: Crypto) -> bool {
    &&& c.greed_fear.data@.len() == 0
    &&& c.global == (Global {
        total_market_cap_usd: 0,
        total_24h_volume_usd: 0,
        bitcoin_percentage_of_market_cap: Some(0),
        last_updated: 0,
    })
    &&& c.gas_fee == (GasFee { bitcoin: (0, 0, 0), ethereum: 0 })
}

impl Crypto {
    /// The lines of the index page: today's and yesterday's greed-and-fear
    /// readings when both are there, then market cap, volume, bitcoin
    /// dominance and the two networks' fees.
    pub fn into_items(&self, is_cn: bool) -> (r: Vec<UiItem>)
        ensures
            ({
                let d = self.greed_fear.data@;
                let off: int = if d.len() == 2 { 1 } else { 0 };
                &&& r@.len() == 5 + off
                &&& d.len() == 2 ==> {
                    &&& r@[0].name@ == tr_text(is_cn, "贪婪恐慌(今天/昨天)"@)
                    &&& r@[0].value@ == d[0].value@ + "/"@ + d[1].value@
                    &&& r@[0].is_up == greed_is_up(d[0].value@)
                }
                &&& r@[off].name@ == tr_text(is_cn, "加密总市值(USD)"@)
                &&& r@[off].value@ == with_commas(nat_text(self.global.total_market_cap_usd as nat))
                &&& r@[off].is_up
                &&& r@[off + 1].name@ == tr_text(is_cn, "24h交易量(USD)"@)
                &&& r@[off + 1].value@ == with_commas(nat_text(self.global.total_24h_volume_usd as nat))
                &&& r@[off + 1].is_up
                &&& r@[off + 2].name@ == tr_text(is_cn, "BTC市值占比"@)
                &&& r@[off + 2].value@ == percent_text(self.global.bitcoin_percentage_of_market_cap)
                &&& r@[off + 2].is_up == btc_dominant(self.global.bitcoin_percentage_of_market_cap)
                &&& r@[off + 3].name@ == tr_text(is_cn, "BTC油费(慢/正常/快)"@)
                &&& r@[off + 3].value@ == gas_text(self.gas_fee.bitcoin)
                &&& r@[off + 3].is_up
                &&& r@[off + 4].name@ == tr_text(is_cn, "ETH油费"@)
                &&& r@[off + 4].value@ == gwei_text(self.gas_fee.ethereum)
                &&& r@[off + 4].is_up
            }),
    {
        let mut items: Vec<UiItem> = Vec::new();
        if self.greed_fear.data.len() == 2 {
            let mut value = self.greed_fear.data[0].value.clone();
            value.append("/");
            value.append(self.greed_fear.data[1].value.as_str());
            let level = match parse_u32(self.greed_fear.data[0].value.as_str()) {
                Some(n) => n,
                None => 0,
            };
            items.push(UiItem { name: tr(is_cn, "贪婪恐慌(今天/昨天)"), value, is_up: level >= 50 });
        }
        let mut cap = String::new();
        push_nat(&mut cap, self.global.total_market_cap_usd);
        items.push(UiItem {
            name: tr(is_cn, "加密总市值(USD)"),
            value: format_number_with_commas(cap.as_str()),
            is_up: true,
        });
        let mut volume = String::new();
        push_nat(&mut volume, self.global.total_24h_volume_usd);
        items.push(UiItem {
            name: tr(is_cn, "24h交易量(USD)"),
            value: format_number_with_commas(volume.as_str()),
            is_up: true,
        });
        let dominant = match self.global.bitcoin_percentage_of_market_cap {
            Some(v) => v >= 5000000000,
            None => false,
        };
        items.push(UiItem {
            name: tr(is_cn, "BTC市值占比"),
            value: pretty_precent(self.global.bitcoin_percentage_of_market_cap),
            is_up: dominant,
        });
        let mut gas = String::new();
        push_nat(&mut gas, self.gas_fee.bitcoin.0);
        gas.append("/");
        push_nat(&mut gas, self.gas_fee.bitcoin.1);
        gas.append("/");
        push_nat(&mut gas, self.gas_fee.bitcoin.2);
        gas.append(" vSat");
        items.push(UiItem { name: tr(is_cn, "BTC油费(慢/正常/快)"), value: gas, is_up: true });
        let wei = self.gas_fee.ethereum;
        let q0 = wei / 1000000000;
        let rem = wei % 1000000000;
        let gwei: u64 = if 2 * rem > 1000000000 || (2 * rem == 1000000000 && q0 % 2 == 1) {
            q0 + 1
        } else {
            q0
        };
        let mut eth = String::new();
        push_nat(&mut eth, gwei);
        eth.append(" GWei");
        items.push(UiItem { name: tr(is_cn, "ETH油费"), value: eth, is_up: true });
        proof {
            assert(eth@ =~= gwei_text(self.gas_fee.ethereum));
            assert(gas@ =~= gas_text(self.gas_fee.bitcoin));
            assert(cap@ =~= nat_text(self.global.total_market_cap_usd as nat));
            assert(volume@ =~= nat_text(self.global.total_24h_volume_usd as nat));
        }
        items
    }

    /// No readings: zero figures and an empty history.
    pub fn new() -> (r: Self)
        ensures
            is_zero_crypto(r),
    {
        Crypto {
            greed_fear: GreedFear { data: Vec::new() },
            global: Global {
                total_market_cap_usd: 0,
                total_24h_volume_usd: 0,
                bitcoin_percentage_of_market_cap: Some(0),
                last_updated: 0,
            },
            gas_fee: GasFee { bitcoin: (0, 0, 0), ethereum: 0 },
        }
    }
}

impl Stats {
    /// No indices and no errors.
    pub fn new() -> (r: Self)
        ensures
            r.errors@.len() == 0,
            r.market@.len() == 0,
            is_zero_crypto(r.crypto),
    {
        Stats { errors: Vec::new(), market: Vec::new(), crypto: Crypto::new() }
    }

    /// Whether the snapshot may replace the cached one: one that met errors
    /// never does.
    pub fn is_cacheable(&self) -> (r: bool)
        ensures
            r == (self.errors@.len() == 0),
    {
        self.errors.len() == 0
    }

    /// The errors as one text, separated by blank lines.
    pub fn error_text(&self) -> (r: String)
        ensures
            r@ == joined(crate::latest::texts(self.errors@), "\n\n"@),
    {
        let ghost parts = crate::latest::texts(self.errors@);
        let mut r = String::new();
        let mut i: usize = 0;
        while i < self.errors.len()
            invariant
                i <= self.errors@.len(),
                parts == crate::latest::texts(self.errors@),
                r@ == joined(parts.subrange(0, i as int), "\n\n"@),
            decreases self.errors@.len() - i,
        {
            let ghost before = r@;
            if i > 0 {
                r.append("\n\n");
            }
            r.append(self.errors[i].as_str());
            i = i + 1;
            let ghost sub = parts.subrange(0, i as int);
            assert(sub.drop_last() =~= parts.subrange(0, i - 1));
            if i == 1 {
                assert(before =~= Seq::<char>::empty());
                assert(r@ =~= sub[0]);
            }
        }
        assert(parts.subrange(0, i as int) =~= parts);
        r
    }
}

/// A snapshot assembled from the two index fetches: what each returned, and
/// for each one that failed, an error line naming it.
pub fn from_results(market: Result<Vec<Market>, String>, crypto: Result<Crypto, String>) -> (r: Stats)
    ensures
        market is Ok ==> r.market@ == market->Ok_0@,
        market is Err ==> r.market@.len() == 0,
        crypto is Ok ==> r.crypto == crypto->Ok_0,
        crypto is Err ==> is_zero_crypto(r.crypto),
        crate::latest::texts(r.errors@) == (match market {
            Ok(_) => Seq::<Seq<char>>::empty(),
            Err(e) => seq![market_error_text(e@)],
        }) + (match crypto {
            Ok(_) => Seq::<Seq<char>>::empty(),
            Err(e) => seq![crypto_error_text(e@)],
        }),
{
    let mut stats = Stats::new();
    match market {
        Ok(v) => stats.market = v,
        Err(e) => {
            let mut line = String::from_str("fetch market error: ");
            line.append(e.as_str());
            stats.errors.push(line);
        },
    }
    match crypto {
        Ok(v) => stats.crypto = v,
        Err(e) => {
            let mut line = String::from_str("fetch crypto stats error: ");
            line.append(e.as_str());
            stats.errors.push(line);
        },
    }
    assert(crate::latest::texts(stats.errors@) =~= (match market {
        Ok(_) => Seq::<Seq<char>>::empty(),
        Err(e) => seq![market_error_text(e@)],
    }) + (match crypto {
        Ok(_) => Seq::<Seq<char>>::empty(),
        Err(e) => seq![crypto_error_text(e@)],
    }));
    stats
}

} // verus!
