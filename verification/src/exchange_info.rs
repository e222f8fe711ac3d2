//! Exchange metadata: the traded symbols and their filters, fetched once at
//! startup. The tick size is read from the first price filter of a symbol.
use vstd::prelude::*;
use crate::decimal::{parse_decimal_atoms, parses_to_atoms, atoms_of};

verus! {

/// One margin asset of the exchange.
#[derive(Clone, Debug)]
pub struct Asset {
    pub asset: String,
    pub auto_asset_exchange: String,
    pub margin_available: bool,
}

/// One request rate limit of the exchange.
#[derive(Clone, Debug)]
pub struct RateLimit {
    pub interval: String,
    pub interval_num: i64,
    pub limit: i64,
    pub rate_limit_type: String,
}

/// One trading filter of a symbol. Numeric fields arrive as decimal strings.
#[derive(Clone, Debug)]
pub struct Filter {
    pub filter_type: String,
    pub max_price: Option<String>,
    pub min_price: Option<String>,
    pub tick_size: Option<String>,
    pub max_qty: Option<String>,
    pub min_qty: Option<String>,
    pub step_size: Option<String>,
    pub limit: Option<i64>,
    pub notional: Option<String>,
    pub multiplier_decimal: Option<String>,
    pub multiplier_down: Option<String>,
    pub multiplier_up: Option<String>,
}

/// One traded symbol and its filters.
#[derive(Clone, Debug)]
pub struct Symbol {
    pub base_asset: String,
    pub base_asset_precision: i64,
    pub contract_type: String,
    pub delivery_date: i64,
    pub filters: Vec<Filter>,
    pub liquidation_fee: String,
    pub maint_margin_percent: String,
    pub margin_asset: String,
    pub market_take_bound: String,
    pub onboard_date: i64,
    pub order_types: Vec<String>,
    pub pair: String,
    pub price_precision: i64,
    pub quantity_precision: i64,
    pub quote_asset: String,
    pub quote_precision: i64,
    pub required_margin_percent: String,
    pub settle_plan: i64,
    pub status: String,
    pub symbol: String,
    pub time_in_force: Vec<String>,
    pub trigger_protect: String,
    pub underlying_sub_type: Vec<String>,
    pub underlying_type: String,
}

/// The whole exchange-info response.
#[derive(Clone, Debug)]
pub struct USDMExchangeInfo {
    pub assets: Vec<Asset>,
    pub exchange_filters: Vec<String>,
    pub futures_type: String,
    pub rate_limits: Vec<RateLimit>,
    pub server_time: i64,
    pub symbols: Vec<Symbol>,
    pub timezone: String,
}

/// The filter that carries the symbol's tick size.
pub open spec fn is_price_filter(f: Filter) -> bool {
    f.filter_type@ == "PRICE_FILTER"@
}

/// The tick size of a filter list, in atoms: the parsed `tick_size` of the
/// first price filter, `None` when there is no price filter, when it carries
/// no tick size, or when the tick size does not parse.
pub open spec fn spec_tick_size(fs: Seq<Filter>) -> Option<u64>
    decreases fs.len(),
{
    if fs.len() == 0 {
        None
    } else if is_price_filter(fs[0]) {
        match fs[0].tick_size {
            Some(ts) => if parses_to_atoms(ts@) {
                Some(atoms_of(ts@) as u64)
            } else {
                None
            },
            None => None,
        }
    } else {
        spec_tick_size(fs.drop_first())
    }
}

proof fn lemma_spec_tick_size_prefix(fs: Seq<Filter>, i: int)
    requires
        0 <= i <= fs.len(),
        forall|k: int| 0 <= k < i ==> !is_price_filter(#[trigger] fs[k]),
    ensures
        spec_tick_size(fs) == spec_tick_size(fs.skip(i)),
    decreases i,
{
    if i > 0 {
        assert(!is_price_filter(fs[0]));
        assert(fs.drop_first() =~= fs.skip(1));
        let t = fs.skip(1);
        assert forall|k: int| 0 <= k < i - 1 implies !is_price_filter(#[trigger] t[k]) by {
            assert(t[k] == fs[k + 1]);
        }
        lemma_spec_tick_size_prefix(t, i - 1);
        assert(t.skip(i - 1) =~= fs.skip(i));
    } else {
        assert(fs.skip(0) =~= fs);
    }
}

fn is_price_filter_exec(f: &Filter) -> (r: bool)
    ensures
        r == is_price_filter(*f),
{
    let want: String = "PRICE_FILTER".to_owned();
    f.filter_type.eq(&want)
}

impl Symbol {
    /// The symbol's tick size in atoms, from its first price filter.
    pub fn get_tick_size(&self) -> (r: Option<u64>)
        ensures
            r == spec_tick_size(self.filters@),
    {
        let n: usize = self.filters.len();
        let mut i: usize = 0;
        while i < n
            invariant
                0 <= i <= n,
                n == self.filters@.len(),
                forall|k: int| 0 <= k < i ==> !is_price_filter(#[trigger] self.filters@[k]),
            decreases n - i,
        {
            if is_price_filter_exec(&self.filters[i]) {
                proof {
                    lemma_spec_tick_size_prefix(self.filters@, i as int);
                    assert(self.filters@.skip(i as int)[0] == self.filters@[i as int]);
                }
                let r: Option<u64> = match &self.filters[i].tick_size {
                    Some(ts) => parse_decimal_atoms(ts.as_str()),
                    None => None,
                };
                return r;
            }
            i = i + 1;
        }
        proof {
            lemma_spec_tick_size_prefix(self.filters@, n as int);
        }
        None
    }
}

} // verus!
