//! Stream selection: the candidate endpoints per asset class, the channel
//! identifiers, the combined-stream URL, and the subscription payload.
use vstd::prelude::*;
use vstd::string::{StringExecFns, StrSliceExecFns};

verus! {

/// Futures market flavor.
#[derive(Clone, Debug)]
pub enum FuturesType {
    USDMargined,
    CoinMargined,
}

/// Asset class of the requested streams.
#[derive(Clone, Debug)]
pub enum BinanceAssetType {
    Spot,
    Futures(FuturesType),
    Options,
}

/// The candidate stream endpoints of an asset class, in priority order.
/// One USD-margined endpoint is listed with a stray leading space; URL
/// normalization strips it when the endpoint is used.
pub open spec fn spec_base_urls(a: BinanceAssetType) -> Seq<Seq<char>> {
    match a {
        BinanceAssetType::Spot => seq![
            "wss://stream.binance.com:9443"@,
            "wss://stream.binance.com:443"@,
        ],
        BinanceAssetType::Futures(f) => match f {
            FuturesType::USDMargined => seq![
                " wss://fstream.binance.com"@,
                "wss://fstream-auth.binance.com"@,
            ],
            FuturesType::CoinMargined => seq!["wss://dstream.binance.com"@],
        },
        BinanceAssetType::Options => seq!["wss://nbstream.binance.com/eoptions/"@],
    }
}

impl BinanceAssetType {
    /// The candidate stream endpoints for the asset class, in priority
    /// order.
    pub fn get_ws_base_url_list(&self) -> (r: Vec<String>)
        ensures
            r.deep_view() == spec_base_urls(*self),
    {
        let mut v: Vec<String> = Vec::new();
        match self {
            BinanceAssetType::Spot => {
                v.push("wss://stream.binance.com:9443".to_owned());
                v.push("wss://stream.binance.com:443".to_owned());
            },
            BinanceAssetType::Futures(f) => match f {
                FuturesType::USDMargined => {
                    v.push(" wss://fstream.binance.com".to_owned());
                    v.push("wss://fstream-auth.binance.com".to_owned());
                },
                FuturesType::CoinMargined => {
                    v.push("wss://dstream.binance.com".to_owned());
                },
            },
            BinanceAssetType::Options => {
                v.push("wss://nbstream.binance.com/eoptions/".to_owned());
            },
        }
        proof {
            assert(v.deep_view() =~~= spec_base_urls(*self));
        }
        v
    }
}

/// Relies on String::push: appends one character.
#[verifier::external_body]
fn push_char(s: &mut String, c: char)
    ensures
        final(s)@ == old(s)@.push(c),
{
    s.push(c);
}

/// The character `c` lowered when it is an ASCII capital, else unchanged.
pub open spec fn spec_lower_char(c: char) -> char {
    if 65 <= c as u32 && c as u32 <= 90 {
        (((c as u32) + 32) as u8) as char
    } else {
        c
    }
}

/// The string with every ASCII capital lowered.
pub open spec fn spec_lower(s: Seq<char>) -> Seq<char> {
    s.map_values(|c: char| spec_lower_char(c))
}

/// Lowers the ASCII capitals of a symbol name.
fn ascii_lower(s: &str) -> (r: String)
    ensures
        r@ == spec_lower(s@),
{
    let n: usize = s.unicode_len();
    let mut out: String = String::new();
    let mut i: usize = 0;
    while i < n
        invariant
            0 <= i <= n,
            n == s@.len(),
            out@ == spec_lower(s@.take(i as int)),
        decreases n - i,
    {
        let c: char = s.get_char(i);
        let cu: u32 = c as u32;
        let lc: char = if 65 <= cu && cu <= 90 {
            ((cu + 32) as u8) as char
        } else {
            c
        };
        push_char(&mut out, lc);
        proof {
            assert(out@ =~= spec_lower(s@.take(i as int + 1)));
        }
        i = i + 1;
    }
    proof {
        assert(s@.take(n as int) =~= s@);
    }
    out
}

/// The decimal digits of `n`, most significant first.
pub open spec fn spec_u32_digits(n: int) -> Seq<char>
    decreases n,
{
    if n < 10 {
        seq![(((48 + n) as u8) as char)]
    } else {
        spec_u32_digits(n / 10).push((((48 + n % 10) as u8) as char))
    }
}

/// Appends the decimal digits of `n`.
fn push_u32_digits(s: &mut String, n: u32)
    ensures
        final(s)@ == old(s)@ + spec_u32_digits(n as int),
    decreases n,
{
    if n < 10 {
        push_char(s, (48 + n as u8) as char);
        proof {
            assert(final(s)@ =~= old(s)@ + spec_u32_digits(n as int));
        }
    } else {
        push_u32_digits(s, n / 10);
        push_char(s, (48 + (n % 10) as u8) as char);
        proof {
            assert(final(s)@ =~= old(s)@ + spec_u32_digits(n as int));
        }
    }
}

/// One stream subscription: the symbol it covers, and for the depth stream
/// its update interval in milliseconds.
#[derive(Clone, Debug)]
pub enum Stream {
    Depth(String, i32),
    Trade(String),
    BookTicker(String),
}

/// Every depth stream carries a non-negative update interval.
pub open spec fn streams_wf(s: Seq<Stream>) -> bool {
    forall|i: int|
        0 <= i < s.len() ==> match #[trigger] s[i] {
            Stream::Depth(_, ms) => ms >= 0,
            _ => true,
        }
}

/// The channel identifier of one stream: the lower-cased symbol and the
/// stream suffix.
pub open spec fn spec_channel(s: Stream) -> Seq<char> {
    match s {
        Stream::Depth(sym, ms) => spec_lower(sym@) + "@depth@"@ + spec_u32_digits(ms as int)
            + "ms"@,
        Stream::Trade(sym) => spec_lower(sym@) + "@trade"@,
        Stream::BookTicker(sym) => spec_lower(sym@) + "@bookTicker"@,
    }
}

impl Stream {
    /// The channel identifier of the stream.
    pub fn channel_string(&self) -> (r: String)
        requires
            *self matches Stream::Depth(_, ms) ==> ms >= 0,
        ensures
            r@ == spec_channel(*self),
    {
        match self {
            Stream::Depth(sym, ms) => {
                let mut out: String = ascii_lower(sym.as_str());
                out.append("@depth@");
                push_u32_digits(&mut out, *ms as u32);
                out.append("ms");
                proof {
                    assert(out@ =~= spec_channel(*self));
                }
                out
            },
            Stream::Trade(sym) => {
                let mut out: String = ascii_lower(sym.as_str());
                out.append("@trade");
                proof {
                    assert(out@ =~= spec_channel(*self));
                }
                out
            },
            Stream::BookTicker(sym) => {
                let mut out: String = ascii_lower(sym.as_str());
                out.append("@bookTicker");
                proof {
                    assert(out@ =~= spec_channel(*self));
                }
                out
            },
        }
    }
}

/// The channel identifiers joined with `/`.
pub open spec fn spec_channels_joined(s: Seq<Stream>) -> Seq<char>
    decreases s.len(),
{
    if s.len() == 0 {
        Seq::<char>::empty()
    } else if s.len() == 1 {
        spec_channel(s[0])
    } else {
        spec_channels_joined(s.drop_last()) + "/"@ + spec_channel(s.last())
    }
}

/// The channel identifiers, each in quotes, joined with `,`.
pub open spec fn spec_channels_quoted(s: Seq<Stream>) -> Seq<char>
    decreases s.len(),
{
    if s.len() == 0 {
        Seq::<char>::empty()
    } else if s.len() == 1 {
        "\""@ + spec_channel(s[0]) + "\""@
    } else {
        spec_channels_quoted(s.drop_last()) + ",\""@ + spec_channel(s.last()) + "\""@
    }
}

/// The combined-stream subscription path.
pub open spec fn spec_stream_path(s: Seq<Stream>) -> Seq<char> {
    "/stream?streams="@ + spec_channels_joined(s)
}

/// The subscription payload sent on connecting.
pub open spec fn spec_subscribe_payload(s: Seq<Stream>) -> Seq<char> {
    "{\"method\":\"SUBSCRIBE\",\"params\":["@ + spec_channels_quoted(s) + "],\"id\":1}"@
}

/// The normal form of an absolute URL string, or `None` when it does not
/// parse as one. A function of the string alone.
pub uninterp spec fn normalized_url_of(s: Seq<char>) -> Option<Seq<char>>;

/// Relies on url::Url::parse followed by Url::to_string: parses an absolute
/// URL (stripping surrounding whitespace, normalizing the form) and writes
/// it back out.
#[verifier::external_body]
fn normalize_url(s: &str) -> (r: Option<String>)
    ensures
        (r is Some) == (normalized_url_of(s@) is Some),
        r matches Some(u) ==> normalized_url_of(s@) == Some(u@),
{
    match url::Url::parse(s) {
        Ok(u) => Some(u.to_string()),
        Err(_) => None,
    }
}

/// The endpoint URLs a list of bases yields for one path: each base with
/// the path appended, normalized, keeping the bases that parse, in order.
pub open spec fn spec_ws_urls(bases: Seq<Seq<char>>, path: Seq<char>) -> Seq<Seq<char>>
    decreases bases.len(),
{
    if bases.len() == 0 {
        Seq::<Seq<char>>::empty()
    } else {
        spec_ws_urls(bases.drop_last(), path) + (match normalized_url_of(bases.last() + path) {
            Some(u) => seq![u],
            None => Seq::<Seq<char>>::empty(),
        })
    }
}

/// An immutable request for market-data streams: the asset class and the
/// channels to subscribe to.
#[derive(Clone, Debug)]
pub struct DataRequest {
    pub asset_type: BinanceAssetType,
    pub streams: Vec<Stream>,
}

impl DataRequest {
    /// Builds the request.
    pub fn new(asset_type: BinanceAssetType, streams: Vec<Stream>) -> (r: Self)
        ensures
            r.asset_type == asset_type,
            r.streams == streams,
    {
        DataRequest { asset_type, streams }
    }

    /// The channel identifiers joined with `/`.
    fn joined_channels(&self) -> (r: String)
        requires
            streams_wf(self.streams@),
        ensures
            r@ == spec_channels_joined(self.streams@),
    {
        let n: usize = self.streams.len();
        let mut out: String = String::new();
        let mut i: usize = 0;
        while i < n
            invariant
                0 <= i <= n,
                n == self.streams@.len(),
                streams_wf(self.streams@),
                out@ == spec_channels_joined(self.streams@.take(i as int)),
            decreases n - i,
        {
            proof {
                assert(self.streams@.take(i as int + 1).drop_last() =~= self.streams@.take(
                    i as int,
                ));
                assert(self.streams@.take(i as int + 1).last() == self.streams@[i as int]);
                assert(self.streams@[i as int] matches Stream::Depth(_, ms) ==> ms >= 0);
            }
            if i > 0 {
                out.append("/");
            }
            let ch: String = self.streams[i].channel_string();
            out.append(ch.as_str());
            proof {
                assert(out@ =~= spec_channels_joined(self.streams@.take(i as int + 1)));
            }
            i = i + 1;
        }
        proof {
            assert(self.streams@.take(n as int) =~= self.streams@);
        }
        out
    }

    /// The candidate stream URLs for this request, in endpoint priority
    /// order: each base endpoint with the combined-stream path, normalized;
    /// bases that do not form a valid URL are skipped.
    pub fn get_ws_urls(&self) -> (r: Vec<String>)
        requires
            streams_wf(self.streams@),
        ensures
            r.deep_view() == spec_ws_urls(
                spec_base_urls(self.asset_type),
                spec_stream_path(self.streams@),
            ),
    {
        let mut path: String = "/stream?streams=".to_owned();
        let joined: String = self.joined_channels();
        path.append(joined.as_str());
        let bases: Vec<String> = self.asset_type.get_ws_base_url_list();
        let ghost base_views = spec_base_urls(self.asset_type);
        let mut out: Vec<String> = Vec::new();
        let n: usize = bases.len();
        let mut i: usize = 0;
        proof {
            assert(bases.deep_view().len() == bases@.len());
            assert(out.deep_view() =~~= spec_ws_urls(
                base_views.take(0),
                spec_stream_path(self.streams@),
            ));
        }
        while i < n
            invariant
                0 <= i <= n,
                n == bases@.len(),
                bases.deep_view() == base_views,
                path@ == spec_stream_path(self.streams@),
                out.deep_view() == spec_ws_urls(
                    base_views.take(i as int),
                    spec_stream_path(self.streams@),
                ),
            decreases n - i,
        {
            proof {
                assert(base_views.take(i as int + 1).drop_last() =~= base_views.take(i as int));
                assert(base_views.take(i as int + 1).last() == base_views[i as int]);
                assert(bases@[i as int]@ == base_views[i as int]);
            }
            let full: String = bases[i].clone().concat(path.as_str());
            match normalize_url(full.as_str()) {
                Some(u) => {
                    out.push(u);
                },
                None => {},
            }
            proof {
                assert(out.deep_view() =~~= spec_ws_urls(
                    base_views.take(i as int + 1),
                    spec_stream_path(self.streams@),
                ));
            }
            i = i + 1;
        }
        proof {
            assert(base_views.take(n as int) =~= base_views);
        }
        out
    }

    /// The subscription payload for this request.
    pub fn get_subscribe_message(&self) -> (r: String)
        requires
            streams_wf(self.streams@),
        ensures
            r@ == spec_subscribe_payload(self.streams@),
    {
        let mut out: String = "{\"method\":\"SUBSCRIBE\",\"params\":[".to_owned();
        let n: usize = self.streams.len();
        let mut i: usize = 0;
        let ghost prefix = "{\"method\":\"SUBSCRIBE\",\"params\":["@;
        proof {
            assert(out@ =~= prefix + spec_channels_quoted(self.streams@.take(0)));
        }
        while i < n
            invariant
                0 <= i <= n,
                n == self.streams@.len(),
                streams_wf(self.streams@),
                out@ == prefix + spec_channels_quoted(self.streams@.take(i as int)),
            decreases n - i,
        {
            proof {
                assert(self.streams@.take(i as int + 1).drop_last() =~= self.streams@.take(
                    i as int,
                ));
                assert(self.streams@.take(i as int + 1).last() == self.streams@[i as int]);
                assert(self.streams@[i as int] matches Stream::Depth(_, ms) ==> ms >= 0);
            }
            if i > 0 {
                out.append(",\"");
            } else {
                out.append("\"");
            }
            let ch: String = self.streams[i].channel_string();
            out.append(ch.as_str());
            out.append("\"");
            proof {
                assert(out@ =~= prefix + spec_channels_quoted(self.streams@.take(i as int + 1)));
            }
            i = i + 1;
        }
        out.append("],\"id\":1}");
        proof {
            assert(self.streams@.take(n as int) =~= self.streams@);
            assert(out@ =~= spec_subscribe_payload(self.streams@));
        }
        out
    }
}

} // verus!
