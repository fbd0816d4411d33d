//! The work of a scan, laid out before it starts: the special passes over
//! metadata, raw data, trailing data and chunks, then the sweep over every
//! combination of order, prime filter, bit width, channels and bit order.

use vstd::prelude::*;
use vstd::string::StringExecFns;
use crate::extractor::{
    is_byte_token, is_column_token, order_name, pattern_channels, pattern_widths, ConfigSpec,
    ExtractionConfig, Traversal, TraversalSpec,
};
use crate::imageio::{Image, ImgFormat};
use crate::opts::{BitOrder, Options, OrderSpec, PrimeSpec};
use crate::result::opt_text;
use crate::text::{decimal, push_decimal, str_chars, texts};

verus! {

/// One cell of the sweep.
#[derive(Debug, Clone, PartialEq, Eq)]
pub struct Combination {
    /// Order token.
    pub order: String,
    /// Whether only prime positions contribute.
    pub prime: bool,
    /// Bit width, or a mask above 8.
    pub bits: u16,
    /// Channel pattern; none for a walk over raw bytes.
    pub channel: Option<String>,
    pub bit_order: BitOrder,
}

/// Mathematical counterpart of [`Combination`].
pub struct CombinationView {
    pub order: Seq<char>,
    pub prime: bool,
    pub bits: u16,
    pub channel: Option<Seq<char>>,
    pub bit_order: BitOrder,
}

impl View for Combination {
    type V = CombinationView;

    open spec fn view(&self) -> CombinationView {
        CombinationView {
            order: self.order@,
            prime: self.prime,
            bits: self.bits,
            channel: opt_text(self.channel),
            bit_order: self.bit_order,
        }
    }
}

/// The views of a list of combinations.
pub open spec fn combos_view(s: Seq<Combination>) -> Seq<CombinationView> {
    s.map_values(|c: Combination| c@)
}

// ---------------------------------------------------------------------------
// The sets that the sweep runs over
// ---------------------------------------------------------------------------
/// The order tokens of a scan. `Auto` is row-major, for BMP behind the
/// row-major byte walk. `All` is the eight pixel tokens, for BMP behind the
/// eight byte tokens.
pub open spec fn spec_orders(format: ImgFormat, order: OrderSpec) -> Seq<Seq<char>> {
    match order {
        OrderSpec::All => if format == ImgFormat::Bmp {
            seq![
                "bY"@,
                "by"@,
                "yb"@,
                "BY"@,
                "YB"@,
                "By"@,
                "yB"@,
                "Yb"@,
                "xY"@,
                "xy"@,
                "yx"@,
                "XY"@,
                "YX"@,
                "Xy"@,
                "yX"@,
                "Yx"@,
            ]
        } else {
            seq!["xy"@, "yx"@, "XY"@, "YX"@, "Xy"@, "yX"@, "xY"@, "Yx"@]
        },
        OrderSpec::Auto => if format == ImgFormat::Bmp {
            seq!["bY"@, "xY"@]
        } else {
            seq!["xy"@]
        },
        OrderSpec::Explicit(v) => texts(v@),
    }
}

/// The states of the prime filter that a scan goes through.
pub open spec fn spec_primes(prime: PrimeSpec) -> Seq<bool> {
    match prime {
        PrimeSpec::All => seq![false, true],
        PrimeSpec::Only => seq![true],
        PrimeSpec::Off => seq![false],
    }
}

/// The bit widths of a scan: 1 to 4 unless others are set.
pub open spec fn spec_bits(bits: Option<Vec<u16>>) -> Seq<u16> {
    match bits {
        Some(v) => v@,
        None => seq![1u16, 2u16, 3u16, 4u16],
    }
}

/// The channel patterns of a scan: `r`, `g`, `b`, `rgb`, `bgr` unless others
/// are set.
pub open spec fn spec_channels(channels: Option<Vec<String>>) -> Seq<Seq<char>> {
    match channels {
        Some(v) => texts(v@),
        None => seq!["r"@, "g"@, "b"@, "rgb"@, "bgr"@],
    }
}

/// The bit orders of a scan: both, `Lsb` first, unless one is pinned.
pub open spec fn spec_bit_orders(order: Option<BitOrder>) -> Seq<BitOrder> {
    match order {
        Some(o) => seq![o],
        None => seq![BitOrder::Lsb, BitOrder::Msb],
    }
}

/// The channel patterns that a scan tries when none are set.
pub fn default_channels() -> (r: Vec<String>)
    ensures
        texts(r@) == spec_channels(None),
{
    let r = vec![
        String::from_str("r"),
        String::from_str("g"),
        String::from_str("b"),
        String::from_str("rgb"),
        String::from_str("bgr"),
    ];
    assert(texts(r@) =~= spec_channels(None));
    r
}

fn copy_texts(v: &Vec<String>) -> (r: Vec<String>)
    ensures
        texts(r@) == texts(v@),
{
    let mut r: Vec<String> = Vec::new();
    let mut i: usize = 0;
    while i < v.len()
        invariant
            i <= v.len(),
            texts(r@) == texts(v@.take(i as int)),
        decreases v.len() - i,
    {
        let ghost before = r@;
        r.push(v[i].clone());
        assert(texts(r@) =~= texts(before).push(v@[i as int]@));
        assert(texts(v@.take(i + 1)) =~= texts(v@.take(i as int)).push(v@[i as int]@));
        i = i + 1;
    }
    assert(v@.take(v.len() as int) =~= v@);
    r
}

fn scan_orders(format: ImgFormat, order: &OrderSpec) -> (r: Vec<String>)
    ensures
        texts(r@) == spec_orders(format, *order),
{
    match order {
        OrderSpec::All => {
            if format == ImgFormat::Bmp {
                let r = vec![
                    String::from_str("bY"),
                    String::from_str("by"),
                    String::from_str("yb"),
                    String::from_str("BY"),
                    String::from_str("YB"),
                    String::from_str("By"),
                    String::from_str("yB"),
                    String::from_str("Yb"),
                    String::from_str("xY"),
                    String::from_str("xy"),
                    String::from_str("yx"),
                    String::from_str("XY"),
                    String::from_str("YX"),
                    String::from_str("Xy"),
                    String::from_str("yX"),
                    String::from_str("Yx"),
                ];
                assert(texts(r@) =~= spec_orders(format, *order));
                r
            } else {
                let r = vec![
                    String::from_str("xy"),
                    String::from_str("yx"),
                    String::from_str("XY"),
                    String::from_str("YX"),
                    String::from_str("Xy"),
                    String::from_str("yX"),
                    String::from_str("xY"),
                    String::from_str("Yx"),
                ];
                assert(texts(r@) =~= spec_orders(format, *order));
                r
            }
        },
        OrderSpec::Auto => {
            if format == ImgFormat::Bmp {
                let r = vec![String::from_str("bY"), String::from_str("xY")];
                assert(texts(r@) =~= spec_orders(format, *order));
                r
            } else {
                let r = vec![String::from_str("xy")];
                assert(texts(r@) =~= spec_orders(format, *order));
                r
            }
        },
        OrderSpec::Explicit(v) => copy_texts(v),
    }
}

fn scan_primes(prime: PrimeSpec) -> (r: Vec<bool>)
    ensures
        r@ == spec_primes(prime),
{
    let r = match prime {
        PrimeSpec::All => vec![false, true],
        PrimeSpec::Only => vec![true],
        PrimeSpec::Off => vec![false],
    };
    assert(r@ =~= spec_primes(prime));
    r
}

fn scan_bits(bits: &Option<Vec<u16>>) -> (r: Vec<u16>)
    ensures
        r@ == spec_bits(*bits),
{
    match bits {
        Some(v) => {
            let mut r: Vec<u16> = Vec::new();
            let mut i: usize = 0;
            while i < v.len()
                invariant
                    i <= v.len(),
                    r@ == v@.take(i as int),
                decreases v.len() - i,
            {
                r.push(v[i]);
                assert(r@ =~= v@.take(i + 1));
                i = i + 1;
            }
            assert(v@.take(v.len() as int) =~= v@);
            r
        },
        None => {
            let r = vec![1u16, 2u16, 3u16, 4u16];
            assert(r@ =~= seq![1u16, 2u16, 3u16, 4u16]);
            r
        },
    }
}

fn scan_channels(channels: &Option<Vec<String>>) -> (r: Vec<String>)
    ensures
        texts(r@) == spec_channels(*channels),
{
    match channels {
        Some(v) => copy_texts(v),
        None => default_channels(),
    }
}

fn scan_bit_orders(order: Option<BitOrder>) -> (r: Vec<BitOrder>)
    ensures
        r@ == spec_bit_orders(order),
{
    let r = match order {
        Some(o) => vec![o],
        None => vec![BitOrder::Lsb, BitOrder::Msb],
    };
    assert(r@ =~= spec_bit_orders(order));
    r
}

// ---------------------------------------------------------------------------
// The sweep
// ---------------------------------------------------------------------------
/// One combination for each of the first `k` bit orders.
pub open spec fn over_bit_orders(
    order: Seq<char>,
    prime: bool,
    bits: u16,
    channel: Option<Seq<char>>,
    bit_orders: Seq<BitOrder>,
    k: nat,
) -> Seq<CombinationView> {
    Seq::new(
        k,
        |i: int| CombinationView { order, prime, bits, channel, bit_order: bit_orders[i] },
    )
}

/// The combinations of the first `k` channel patterns, each with every bit
/// order.
pub open spec fn over_channels(
    order: Seq<char>,
    prime: bool,
    bits: u16,
    channels: Seq<Seq<char>>,
    bit_orders: Seq<BitOrder>,
    k: nat,
) -> Seq<CombinationView>
    decreases k,
{
    if k == 0 {
        Seq::empty()
    } else {
        over_channels(order, prime, bits, channels, bit_orders, (k - 1) as nat) + over_bit_orders(
            order,
            prime,
            bits,
            Some(channels[k - 1]),
            bit_orders,
            bit_orders.len(),
        )
    }
}

/// The combinations of one order, one filter state and one width: for a byte
/// token one per bit order, without channels; else one per channel pattern
/// and bit order.
pub open spec fn for_width(
    order: Seq<char>,
    prime: bool,
    bits: u16,
    channels: Seq<Seq<char>>,
    bit_orders: Seq<BitOrder>,
) -> Seq<CombinationView> {
    if is_byte_token(order) {
        over_bit_orders(order, prime, bits, None, bit_orders, bit_orders.len())
    } else {
        over_channels(order, prime, bits, channels, bit_orders, channels.len())
    }
}

/// The combinations of the first `k` widths.
pub open spec fn over_widths(
    order: Seq<char>,
    prime: bool,
    widths: Seq<u16>,
    channels: Seq<Seq<char>>,
    bit_orders: Seq<BitOrder>,
    k: nat,
) -> Seq<CombinationView>
    decreases k,
{
    if k == 0 {
        Seq::empty()
    } else {
        over_widths(order, prime, widths, channels, bit_orders, (k - 1) as nat) + for_width(
            order,
            prime,
            widths[k - 1],
            channels,
            bit_orders,
        )
    }
}

/// The combinations of the first `k` filter states.
pub open spec fn over_primes(
    order: Seq<char>,
    primes: Seq<bool>,
    widths: Seq<u16>,
    channels: Seq<Seq<char>>,
    bit_orders: Seq<BitOrder>,
    k: nat,
) -> Seq<CombinationView>
    decreases k,
{
    if k == 0 {
        Seq::empty()
    } else {
        over_primes(order, primes, widths, channels, bit_orders, (k - 1) as nat) + over_widths(
            order,
            primes[k - 1],
            widths,
            channels,
            bit_orders,
            widths.len(),
        )
    }
}

/// The combinations of the first `k` orders.
pub open spec fn over_orders(
    orders: Seq<Seq<char>>,
    primes: Seq<bool>,
    widths: Seq<u16>,
    channels: Seq<Seq<char>>,
    bit_orders: Seq<BitOrder>,
    k: nat,
) -> Seq<CombinationView>
    decreases k,
{
    if k == 0 {
        Seq::empty()
    } else {
        over_orders(orders, primes, widths, channels, bit_orders, (k - 1) as nat) + over_primes(
            orders[k - 1],
            primes,
            widths,
            channels,
            bit_orders,
            primes.len(),
        )
    }
}

/// The sweep of a scan: every order, with every filter state, with every
/// width, with every channel pattern (for pixel walks), with every bit
/// order; the last varies fastest.
pub open spec fn spec_sweep(image: Image, options: Options) -> Seq<CombinationView> {
    let orders = spec_orders(image.format, options.order);
    over_orders(
        orders,
        spec_primes(options.prime),
        spec_bits(options.bits),
        spec_channels(options.channels),
        spec_bit_orders(options.bit_order),
        orders.len(),
    )
}

fn push_bit_orders(
    out: &mut Vec<Combination>,
    order: &String,
    prime: bool,
    bits: u16,
    channel: Option<&String>,
    bit_orders: &Vec<BitOrder>,
)
    ensures
        combos_view(final(out)@) == combos_view(old(out)@) + over_bit_orders(
            order@,
            prime,
            bits,
            match channel {
                Some(c) => Some(c@),
                None => None,
            },
            bit_orders@,
            bit_orders@.len(),
        ),
{
    let ghost ch = match channel {
        Some(c) => Some(c@),
        None => None,
    };
    let ghost base = combos_view(out@);
    let mut i: usize = 0;
    assert(base + over_bit_orders(order@, prime, bits, ch, bit_orders@, 0) =~= base);
    while i < bit_orders.len()
        invariant
            i <= bit_orders.len(),
            ch == (match channel {
                Some(c) => Some(c@),
                None => None,
            }),
            combos_view(out@) == base + over_bit_orders(
                order@,
                prime,
                bits,
                ch,
                bit_orders@,
                i as nat,
            ),
        decreases bit_orders.len() - i,
    {
        let ghost before = out@;
        let c = Combination {
            order: order.clone(),
            prime,
            bits,
            channel: match channel {
                Some(c) => Some(c.clone()),
                None => None,
            },
            bit_order: bit_orders[i],
        };
        out.push(c);
        assert(combos_view(out@) =~= combos_view(before).push(c@));
        assert(combos_view(out@) =~= base + over_bit_orders(
            order@,
            prime,
            bits,
            ch,
            bit_orders@,
            (i + 1) as nat,
        ));
        i = i + 1;
    }
}

fn push_channels(
    out: &mut Vec<Combination>,
    order: &String,
    prime: bool,
    bits: u16,
    channels: &Vec<String>,
    bit_orders: &Vec<BitOrder>,
)
    ensures
        combos_view(final(out)@) == combos_view(old(out)@) + over_channels(
            order@,
            prime,
            bits,
            texts(channels@),
            bit_orders@,
            channels@.len(),
        ),
{
    let ghost base = combos_view(out@);
    let mut i: usize = 0;
    assert(base + Seq::<CombinationView>::empty() =~= base);
    while i < channels.len()
        invariant
            i <= channels.len(),
            combos_view(out@) == base + over_channels(
                order@,
                prime,
                bits,
                texts(channels@),
                bit_orders@,
                i as nat,
            ),
        decreases channels.len() - i,
    {
        push_bit_orders(out, order, prime, bits, Some(&channels[i]), bit_orders);
        assert(texts(channels@)[i as int] == channels@[i as int]@);
        assert(combos_view(out@) =~= base + over_channels(
            order@,
            prime,
            bits,
            texts(channels@),
            bit_orders@,
            (i + 1) as nat,
        ));
        i = i + 1;
    }
}

fn has_byte_letter(order: &String) -> (r: bool)
    ensures
        r == is_byte_token(order@),
{
    let chars = str_chars(order.as_str());
    let mut i: usize = 0;
    while i < chars.len()
        invariant
            i <= chars.len(),
            chars@ == order@,
            forall|k: int| 0 <= k < i ==> chars@[k] != 'b' && chars@[k] != 'B',
        decreases chars.len() - i,
    {
        if chars[i] == 'b' || chars[i] == 'B' {
            return true;
        }
        i = i + 1;
    }
    false
}

fn push_widths(
    out: &mut Vec<Combination>,
    order: &String,
    prime: bool,
    widths: &Vec<u16>,
    channels: &Vec<String>,
    bit_orders: &Vec<BitOrder>,
)
    ensures
        combos_view(final(out)@) == combos_view(old(out)@) + over_widths(
            order@,
            prime,
            widths@,
            texts(channels@),
            bit_orders@,
            widths@.len(),
        ),
{
    let ghost base = combos_view(out@);
    let bytewise = has_byte_letter(order);
    let mut i: usize = 0;
    assert(base + Seq::<CombinationView>::empty() =~= base);
    while i < widths.len()
        invariant
            i <= widths.len(),
            bytewise == is_byte_token(order@),
            combos_view(out@) == base + over_widths(
                order@,
                prime,
                widths@,
                texts(channels@),
                bit_orders@,
                i as nat,
            ),
        decreases widths.len() - i,
    {
        if bytewise {
            push_bit_orders(out, order, prime, widths[i], None, bit_orders);
        } else {
            push_channels(out, order, prime, widths[i], channels, bit_orders);
        }
        assert(combos_view(out@) =~= base + over_widths(
            order@,
            prime,
            widths@,
            texts(channels@),
            bit_orders@,
            (i + 1) as nat,
        ));
        i = i + 1;
    }
}

fn push_primes(
    out: &mut Vec<Combination>,
    order: &String,
    primes: &Vec<bool>,
    widths: &Vec<u16>,
    channels: &Vec<String>,
    bit_orders: &Vec<BitOrder>,
)
    ensures
        combos_view(final(out)@) == combos_view(old(out)@) + over_primes(
            order@,
            primes@,
            widths@,
            texts(channels@),
            bit_orders@,
            primes@.len(),
        ),
{
    let ghost base = combos_view(out@);
    let mut i: usize = 0;
    assert(base + Seq::<CombinationView>::empty() =~= base);
    while i < primes.len()
        invariant
            i <= primes.len(),
            combos_view(out@) == base + over_primes(
                order@,
                primes@,
                widths@,
                texts(channels@),
                bit_orders@,
                i as nat,
            ),
        decreases primes.len() - i,
    {
        push_widths(out, order, primes[i], widths, channels, bit_orders);
        assert(combos_view(out@) =~= base + over_primes(
            order@,
            primes@,
            widths@,
            texts(channels@),
            bit_orders@,
            (i + 1) as nat,
        ));
        i = i + 1;
    }
}

/// Lays out the sweep of a scan.
pub fn sweep(image: &Image, options: &Options) -> (out: Vec<Combination>)
    ensures
        combos_view(out@) == spec_sweep(*image, *options),
{
    let orders = scan_orders(image.format, &options.order);
    let primes = scan_primes(options.prime);
    let widths = scan_bits(&options.bits);
    let channels = scan_channels(&options.channels);
    let bit_orders = scan_bit_orders(options.bit_order);
    let mut out: Vec<Combination> = Vec::new();
    let mut i: usize = 0;
    assert(combos_view(out@) =~= Seq::<CombinationView>::empty());
    while i < orders.len()
        invariant
            i <= orders.len(),
            combos_view(out@) == over_orders(
                texts(orders@),
                primes@,
                widths@,
                texts(channels@),
                bit_orders@,
                i as nat,
            ),
        decreases orders.len() - i,
    {
        push_primes(&mut out, &orders[i], &primes, &widths, &channels, &bit_orders);
        assert(texts(orders@)[i as int] == orders@[i as int]@);
        i = i + 1;
    }
    out
}

// ---------------------------------------------------------------------------
// One combination: its label and its extraction
// ---------------------------------------------------------------------------
/// The label of a combination: `b`, the width, the channel pattern if there
/// is one, the bit order and the order token, separated by commas, and
/// `,prime` behind them under the prime filter.
pub open spec fn spec_combination_title(c: CombinationView) -> Seq<char> {
    seq!['b'] + decimal(c.bits as nat) + seq![','] + (match c.channel {
        Some(ch) => ch + seq![','],
        None => Seq::empty(),
    }) + order_name(c.bit_order) + seq![','] + c.order + (if c.prime {
        ",prime"@
    } else {
        Seq::empty()
    })
}

/// The extraction that a combination stands for under the scan's options:
/// the order token decides the walk, the limit, shift and inversion are the
/// scan's own.
pub open spec fn spec_combination_config(options: Options, c: CombinationView) -> ConfigSpec {
    let pattern = match c.channel {
        Some(ch) => ch,
        None => seq!['r', 'g', 'b'],
    };
    ConfigSpec {
        traversal: if is_byte_token(c.order) {
            TraversalSpec::Bytes(c.order)
        } else if is_column_token(c.order) {
            TraversalSpec::Columns
        } else {
            TraversalSpec::Rows
        },
        channels: pattern_channels(pattern),
        per_channel: pattern_widths(pattern),
        widths: seq![c.bits],
        bit_order: c.bit_order,
        prime_only: c.prime,
        limit: options.limit as nat,
        shift: match options.shift {
            Some(n) => (n % 8) as nat,
            None => 0,
        },
        invert: options.invert,
    }
}

impl Combination {
    /// The label of the combination.
    pub fn title(&self) -> (t: String)
        ensures
            t@ == spec_combination_title(self@),
    {
        proof {
            reveal_strlit("b");
            reveal_strlit(",");
            reveal_strlit("lsb");
            reveal_strlit("msb");
            assert("b"@ =~= seq!['b']);
            assert(","@ =~= seq![',']);
            assert("lsb"@ =~= seq!['l', 's', 'b']);
            assert("msb"@ =~= seq!['m', 's', 'b']);
        }
        let mut t = String::from_str("b");
        push_decimal(&mut t, self.bits as u64);
        t.append(",");
        let ghost head = t@;
        match &self.channel {
            Some(ch) => {
                t.append(ch.as_str());
                t.append(",");
                assert(t@ =~= head + (ch@ + seq![',']));
            },
            None => {
                assert(t@ =~= head + Seq::<char>::empty());
            },
        }
        match self.bit_order {
            BitOrder::Lsb => t.append("lsb"),
            BitOrder::Msb => t.append("msb"),
        }
        t.append(",");
        t.append(self.order.as_str());
        let ghost body = t@;
        if self.prime {
            t.append(",prime");
        } else {
            assert(t@ =~= body + Seq::<char>::empty());
        }
        t
    }

    /// The extraction that the combination stands for under the scan's
    /// options.
    pub fn config(&self, options: &Options) -> (cfg: ExtractionConfig)
        ensures
            cfg@ == spec_combination_config(*options, self@),
    {
        let order_chars = str_chars(self.order.as_str());
        let traversal = if has_byte_letter(&self.order) {
            Traversal::Bytes(self.order.clone())
        } else if order_chars.len() == 2 && (order_chars[0] == 'y' || order_chars[0] == 'Y') && (
        order_chars[1] == 'x' || order_chars[1] == 'X') {
            Traversal::Columns
        } else {
            Traversal::Rows
        };
        let pattern = match &self.channel {
            Some(ch) => str_chars(ch.as_str()),
            None => {
                let p = vec!['r', 'g', 'b'];
                assert(p@ =~= seq!['r', 'g', 'b']);
                p
            },
        };
        let (channels, per_channel) = crate::extractor::split_pattern(pattern);
        let widths = vec![self.bits];
        assert(widths@ =~= seq![self.bits]);
        ExtractionConfig {
            traversal,
            channels,
            per_channel,
            widths,
            bit_order: self.bit_order,
            prime_only: self.prime,
            limit: options.limit,
            shift: match options.shift {
                Some(n) => (n % 8) as u32,
                None => 0,
            },
            invert: options.invert,
        }
    }
}

} // verus!
