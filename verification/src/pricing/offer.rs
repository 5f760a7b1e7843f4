//! The public AWS `AmazonEC2` offer, which covers compute and EBS in the same
//! JSON bundle, and the price table made of it.
//!
//! The rates of the offer are texts. [`parse_public_offer_prices`] finds them,
//! [`collect_prices`] takes the numbers that they stand for.

use vstd::prelude::*;

use crate::double::Double;
use crate::pricing::{lowered, PriceTable, Rates};
use crate::text::{begins_with, same, starts_with};
use crate::value::{member_views, parse, parsed, Json, JsonView};

verus! {

/// Which output bucket a SKU feeds into, plus the key used for that bucket.
#[derive(Debug)]
pub enum SkuKind {
    /// Hourly compute rate; key is the EC2 instance type (e.g. `t3.micro`).
    Compute(String),
    /// Per-GB-month storage rate; key is `volumeApiName` (e.g. `gp3`).
    EbsCapacity(String),
    /// Per-IOPS-month provisioned-IOPS rate; key is `volumeApiName`.
    EbsIops(String),
    /// Per-GiBps-month provisioned-throughput rate; key is `volumeApiName`.
    EbsThroughput(String),
}

/// What a kind says.
pub ghost enum SkuKindView {
    Compute(Seq<char>),
    EbsCapacity(Seq<char>),
    EbsIops(Seq<char>),
    EbsThroughput(Seq<char>),
}

impl View for SkuKind {
    type V = SkuKindView;

    open spec fn view(&self) -> SkuKindView {
        match *self {
            SkuKind::Compute(k) => SkuKindView::Compute(k@),
            SkuKind::EbsCapacity(k) => SkuKindView::EbsCapacity(k@),
            SkuKind::EbsIops(k) => SkuKindView::EbsIops(k@),
            SkuKind::EbsThroughput(k) => SkuKindView::EbsThroughput(k@),
        }
    }
}

/// Where prices are taken from.
pub open spec fn location() -> Seq<char> {
    "US East (N. Virginia)"@
}

/// Whether compute with these attributes is plain Linux on shared hardware, in
/// use.
pub open spec fn plain_compute(attributes: JsonView) -> bool {
    let cap = attributes.text_or_empty("capacitystatus"@);
    &&& attributes.text_or_empty("operatingSystem"@) == "Linux"@
    &&& attributes.text_or_empty("preInstalledSw"@) == "NA"@
    &&& attributes.text_or_empty("tenancy"@) == "Shared"@
    &&& (cap.len() == 0 || cap == "Used"@)
}

/// The kind of a product, by its family. Bare metal is a family of its own
/// with the same attributes. Of the IOPS groups only the base tier counts: the
/// base rate slightly overestimates io2 cost at very high provisioned IOPS.
pub open spec fn kind_of(product: JsonView) -> Option<SkuKindView> {
    match (product.member_text("productFamily"@), product.member("attributes"@)) {
        (Some(family), Some(attributes)) => {
            if attributes.members() is None || attributes.text_or_empty("location"@)
                != location() {
                None
            } else if family == "Compute Instance"@ || family
                == "Compute Instance (bare metal)"@ {
                match attributes.member_text("instanceType"@) {
                    Some(t) => if plain_compute(attributes) {
                        Some(SkuKindView::Compute(t))
                    } else {
                        None
                    },
                    None => None,
                }
            } else if family == "Storage"@ {
                match attributes.member_text("volumeApiName"@) {
                    Some(t) => Some(SkuKindView::EbsCapacity(t)),
                    None => None,
                }
            } else if family == "System Operation"@ {
                match attributes.member_text("volumeApiName"@) {
                    Some(t) => if attributes.text_or_empty("group"@) == "EBS IOPS"@ {
                        Some(SkuKindView::EbsIops(t))
                    } else {
                        None
                    },
                    None => None,
                }
            } else if family == "Provisioned Throughput"@ {
                match attributes.member_text("volumeApiName"@) {
                    Some(t) => Some(SkuKindView::EbsThroughput(t)),
                    None => None,
                }
            } else {
                None
            }
        },
        _ => None,
    }
}

/// What an optional kind says.
pub open spec fn option_kind(k: Option<SkuKind>) -> Option<SkuKindView> {
    match k {
        Some(k) => Some(k@),
        None => None,
    }
}

fn classify_product(product: &Json) -> (r: Option<SkuKind>)
    ensures
        option_kind(r) == kind_of(product@),
{
    let family: &str = match product.member_text("productFamily") {
        Some(f) => f,
        None => return None,
    };
    let attributes: &Json = match product.member("attributes") {
        Some(a) => a,
        None => return None,
    };
    if attributes.members().is_none() {
        return None;
    }
    if !same(attributes.text_or_empty("location"), "US East (N. Virginia)") {
        return None;
    }
    if same(family, "Compute Instance") || same(family, "Compute Instance (bare metal)") {
        let instance_type: &str = match attributes.member_text("instanceType") {
            Some(t) => t,
            None => return None,
        };
        let cap: &str = attributes.text_or_empty("capacitystatus");
        if same(attributes.text_or_empty("operatingSystem"), "Linux") && same(
            attributes.text_or_empty("preInstalledSw"),
            "NA",
        ) && same(attributes.text_or_empty("tenancy"), "Shared") && (cap.unicode_len() == 0
            || same(cap, "Used")) {
            return Some(SkuKind::Compute(instance_type.to_string()));
        }
        return None;
    }
    let volume_type: Option<&str> = attributes.member_text("volumeApiName");
    if same(family, "Storage") {
        match volume_type {
            Some(t) => Some(SkuKind::EbsCapacity(t.to_string())),
            None => None,
        }
    } else if same(family, "System Operation") {
        match volume_type {
            Some(t) => if same(attributes.text_or_empty("group"), "EBS IOPS") {
                Some(SkuKind::EbsIops(t.to_string()))
            } else {
                None
            },
            None => None,
        }
    } else if same(family, "Provisioned Throughput") {
        match volume_type {
            Some(t) => Some(SkuKind::EbsThroughput(t.to_string())),
            None => None,
        }
    } else {
        None
    }
}

/// The products that have a kind, with it.
pub open spec fn classified(products: Seq<(Seq<char>, JsonView)>) -> Seq<(Seq<char>, SkuKindView)>
    decreases products.len(),
{
    if products.len() == 0 {
        Seq::empty()
    } else {
        let front = classified(products.drop_last());
        match kind_of(products.last().1) {
            Some(kind) => front.push((products.last().0, kind)),
            None => front,
        }
    }
}

/// The kinds of all products of an offer.
pub open spec fn sku_kinds(offer: JsonView) -> Seq<(Seq<char>, SkuKindView)> {
    match offer.member_members("products"@) {
        Some(products) => classified(products),
        None => Seq::empty(),
    }
}

/// What a list of kinds says.
pub open spec fn kind_views(kinds: Seq<(String, SkuKind)>) -> Seq<(Seq<char>, SkuKindView)> {
    kinds.map_values(|k: (String, SkuKind)| (k.0@, k.1@))
}

/// First pass: walk `products` and classify each SKU by `productFamily`.
/// Unknown / filtered-out SKUs don't end up in the list.
pub fn classify_skus(offer: &Json) -> (out: Vec<(String, SkuKind)>)
    ensures
        kind_views(out@) == sku_kinds(offer@),
{
    let mut out: Vec<(String, SkuKind)> = Vec::new();
    let products: &Vec<(String, Json)> = match offer.member_members("products") {
        Some(p) => p,
        None => {
            assert(kind_views(out@) =~= Seq::<(Seq<char>, SkuKindView)>::empty());
            return out;
        },
    };
    let n: usize = products.len();
    let mut i: usize = 0;
    let ghost all = member_views(products@);
    assert(kind_views(out@) =~= classified(all.take(0)));
    while i < n
        invariant
            n == products@.len(),
            i <= n,
            all == member_views(products@),
            kind_views(out@) == classified(all.take(i as int)),
        decreases n - i,
    {
        let ghost before = kind_views(out@);
        proof {
            assert(all.take(i + 1).drop_last() =~= all.take(i as int));
            assert(all.take(i + 1).last() == (products@[i as int].0@, products@[i as int].1@));
        }
        if let Some(kind) = classify_product(&products[i].1) {
            out.push((products[i].0.clone(), kind));
            assert(kind_views(out@) =~= before.push((products@[i as int].0@, kind@)));
        }
        i += 1;
    }
    assert(all.take(n as int) =~= all);
    out
}

/// The kind of a SKU: the last that was found.
pub open spec fn kind_for(kinds: Seq<(Seq<char>, SkuKindView)>, sku: Seq<char>) -> Option<
    SkuKindView,
>
    decreases kinds.len(),
{
    if kinds.len() == 0 {
        None
    } else if kinds.last().0 == sku {
        Some(kinds.last().1)
    } else {
        kind_for(kinds.drop_last(), sku)
    }
}

fn find_kind<'a>(kinds: &'a Vec<(String, SkuKind)>, sku: &str) -> (r: Option<&'a SkuKind>)
    ensures
        r is Some == kind_for(kind_views(kinds@), sku@) is Some,
        r matches Some(k) ==> kind_for(kind_views(kinds@), sku@) == Some(k@),
{
    let mut i: usize = kinds.len();
    let ghost all = kind_views(kinds@);
    assert(all.take(all.len() as int) =~= all);
    while i > 0
        invariant
            i <= kinds@.len(),
            all == kind_views(kinds@),
            kind_for(all, sku@) == kind_for(all.take(i as int), sku@),
        decreases i,
    {
        assert(all.take(i as int).last() == (kinds@[i - 1].0@, kinds@[i - 1].1@));
        assert(all.take(i as int).drop_last() =~= all.take(i - 1));
        if same(kinds[i - 1].0.as_str(), sku) {
            return Some(&kinds[i - 1].1);
        }
        i -= 1;
    }
    None
}

/// Whether a rate in this unit is one for products of this kind. io2 capacity
/// uses "GB-month", others "GB-Mo".
pub open spec fn unit_fits(kind: SkuKindView, unit: Seq<char>) -> bool {
    match kind {
        SkuKindView::Compute(_) => unit == "Hrs"@,
        SkuKindView::EbsCapacity(_) => unit == "GB-Mo"@ || unit == "GB-month"@,
        SkuKindView::EbsIops(_) => unit == "IOPS-Mo"@,
        SkuKindView::EbsThroughput(_) => unit == "GiBps-mo"@,
    }
}

fn fits(kind: &SkuKind, unit: &str) -> (r: bool)
    ensures
        r == unit_fits(kind@, unit@),
{
    match kind {
        SkuKind::Compute(_) => same(unit, "Hrs"),
        SkuKind::EbsCapacity(_) => same(unit, "GB-Mo") || same(unit, "GB-month"),
        SkuKind::EbsIops(_) => same(unit, "IOPS-Mo"),
        SkuKind::EbsThroughput(_) => same(unit, "GiBps-mo"),
    }
}

/// The text of the USD rate of a price dimension, empty where there is none.
pub open spec fn usd_text(dimension: JsonView) -> Seq<char> {
    match dimension.member("pricePerUnit"@) {
        Some(p) => p.text_or_empty("USD"@),
        None => ""@,
    }
}

/// The rates of price dimensions whose unit fits.
pub open spec fn dimension_rates(
    kind: SkuKindView,
    dimensions: Seq<(Seq<char>, JsonView)>,
) -> Seq<Seq<char>>
    decreases dimensions.len(),
{
    if dimensions.len() == 0 {
        Seq::empty()
    } else {
        let front = dimension_rates(kind, dimensions.drop_last());
        let last = dimensions.last().1;
        if unit_fits(kind, last.text_or_empty("unit"@)) {
            front.push(usd_text(last))
        } else {
            front
        }
    }
}

/// The rates of all offers of a SKU whose unit fits.
pub open spec fn offer_rates(kind: SkuKindView, offers: Seq<(Seq<char>, JsonView)>) -> Seq<
    Seq<char>,
>
    decreases offers.len(),
{
    if offers.len() == 0 {
        Seq::empty()
    } else {
        let front = offer_rates(kind, offers.drop_last());
        match offers.last().1.member_members("priceDimensions"@) {
            Some(dimensions) => front + dimension_rates(kind, dimensions),
            None => front,
        }
    }
}

fn push_dimension_rates(kind: &SkuKind, dimensions: &Vec<(String, Json)>, out: &mut Vec<String>)
    ensures
        crate::text::strings(final(out)@) == crate::text::strings(old(out)@) + dimension_rates(
            kind@,
            member_views(dimensions@),
        ),
{
    let n: usize = dimensions.len();
    let ghost first = crate::text::strings(out@);
    let ghost all = member_views(dimensions@);
    let mut i: usize = 0;
    assert(first + dimension_rates(kind@, all.take(0)) =~= first);
    while i < n
        invariant
            n == dimensions@.len(),
            i <= n,
            all == member_views(dimensions@),
            crate::text::strings(out@) == first + dimension_rates(kind@, all.take(i as int)),
        decreases n - i,
    {
        let ghost before = crate::text::strings(out@);
        proof {
            assert(all.take(i + 1).drop_last() =~= all.take(i as int));
            assert(all.take(i + 1).last().1 == dimensions@[i as int].1@);
        }
        let dimension: &Json = &dimensions[i].1;
        if fits(kind, dimension.text_or_empty("unit")) {
            let usd: &str = match dimension.member("pricePerUnit") {
                Some(p) => p.text_or_empty("USD"),
                None => "",
            };
            out.push(usd.to_string());
            proof {
                assert(crate::text::strings(out@) =~= before.push(usd@));
                let front = dimension_rates(kind@, all.take(i as int));
                assert(first + front.push(usd@) =~= (first + front).push(usd@));
            }
        }
        i += 1;
    }
    assert(all.take(n as int) =~= all);
}

fn rate_texts(kind: &SkuKind, offers: &Vec<(String, Json)>) -> (out: Vec<String>)
    ensures
        crate::text::strings(out@) == offer_rates(kind@, member_views(offers@)),
{
    let n: usize = offers.len();
    let mut out: Vec<String> = Vec::new();
    let ghost all = member_views(offers@);
    let mut i: usize = 0;
    assert(crate::text::strings(out@) =~= offer_rates(kind@, all.take(0)));
    while i < n
        invariant
            n == offers@.len(),
            i <= n,
            all == member_views(offers@),
            crate::text::strings(out@) == offer_rates(kind@, all.take(i as int)),
        decreases n - i,
    {
        proof {
            assert(all.take(i + 1).drop_last() =~= all.take(i as int));
            assert(all.take(i + 1).last().1 == offers@[i as int].1@);
        }
        if let Some(dimensions) = offers[i].1.member_members("priceDimensions") {
            push_dimension_rates(kind, dimensions, &mut out);
        }
        i += 1;
    }
    assert(all.take(n as int) =~= all);
    out
}

/// The rates of one SKU, as the offer writes them.
#[derive(Debug)]
pub struct Quote {
    pub kind: SkuKind,
    pub rates: Vec<String>,
}

impl View for Quote {
    type V = (SkuKindView, Seq<Seq<char>>);

    open spec fn view(&self) -> (SkuKindView, Seq<Seq<char>>) {
        (self.kind@, crate::text::strings(self.rates@))
    }
}

/// What a list of quotes says.
pub open spec fn quote_views(quotes: Seq<Quote>) -> Seq<(SkuKindView, Seq<Seq<char>>)> {
    quotes.map_values(|q: Quote| q@)
}

/// The quotes of the terms whose SKU has a kind.
pub open spec fn term_quotes(
    kinds: Seq<(Seq<char>, SkuKindView)>,
    terms: Seq<(Seq<char>, JsonView)>,
) -> Seq<(SkuKindView, Seq<Seq<char>>)>
    decreases terms.len(),
{
    if terms.len() == 0 {
        Seq::empty()
    } else {
        let front = term_quotes(kinds, terms.drop_last());
        match (kind_for(kinds, terms.last().0), terms.last().1.members()) {
            (Some(kind), Some(offers)) => front.push((kind, offer_rates(kind, offers))),
            _ => front,
        }
    }
}

/// The on-demand terms of an offer.
pub open spec fn ondemand_terms(offer: JsonView) -> Option<Seq<(Seq<char>, JsonView)>> {
    match offer.member("terms"@) {
        Some(terms) => terms.member_members("OnDemand"@),
        None => None,
    }
}

/// The quotes in an offer.
pub open spec fn offer_quotes(offer: JsonView) -> Seq<(SkuKindView, Seq<Seq<char>>)> {
    match ondemand_terms(offer) {
        Some(terms) => term_quotes(sku_kinds(offer), terms),
        None => Seq::empty(),
    }
}

fn copy_kind(kind: &SkuKind) -> (r: SkuKind)
    ensures
        r@ == kind@,
{
    match kind {
        SkuKind::Compute(k) => SkuKind::Compute(k.clone()),
        SkuKind::EbsCapacity(k) => SkuKind::EbsCapacity(k.clone()),
        SkuKind::EbsIops(k) => SkuKind::EbsIops(k.clone()),
        SkuKind::EbsThroughput(k) => SkuKind::EbsThroughput(k.clone()),
    }
}

/// The on-demand quotes of an offer, for the products that matter.
pub fn find_quotes(offer: &Json) -> (out: Vec<Quote>)
    ensures
        quote_views(out@) == offer_quotes(offer@),
{
    let kinds: Vec<(String, SkuKind)> = classify_skus(offer);
    let mut out: Vec<Quote> = Vec::new();
    assert(quote_views(out@) =~= Seq::<(SkuKindView, Seq<Seq<char>>)>::empty());
    let terms: &Json = match offer.member("terms") {
        Some(t) => t,
        None => return out,
    };
    let ondemand: &Vec<(String, Json)> = match terms.member_members("OnDemand") {
        Some(o) => o,
        None => return out,
    };
    let n: usize = ondemand.len();
    let ghost all = member_views(ondemand@);
    let ghost table = sku_kinds(offer@);
    let mut i: usize = 0;
    assert(quote_views(out@) =~= term_quotes(table, all.take(0)));
    while i < n
        invariant
            n == ondemand@.len(),
            i <= n,
            all == member_views(ondemand@),
            table == kind_views(kinds@),
            quote_views(out@) == term_quotes(table, all.take(i as int)),
        decreases n - i,
    {
        let ghost before = quote_views(out@);
        proof {
            assert(all.take(i + 1).drop_last() =~= all.take(i as int));
            assert(all.take(i + 1).last() == (ondemand@[i as int].0@, ondemand@[i as int].1@));
        }
        if let Some(kind) = find_kind(&kinds, ondemand[i].0.as_str()) {
            if let Some(offers) = ondemand[i].1.members() {
                let quote = Quote { kind: copy_kind(kind), rates: rate_texts(kind, offers) };
                out.push(quote);
                assert(quote_views(out@) =~= before.push(quote@));
            }
        }
        i += 1;
    }
    assert(all.take(n as int) =~= all);
    out
}

/// The on-demand quotes in the text of an offer, or why it is none.
pub fn parse_public_offer_prices(raw_json: &str) -> (r: Result<Vec<Quote>, String>)
    ensures
        match (r, parsed(raw_json@)) {
            (Ok(quotes), Ok(offer)) => quote_views(quotes@) == offer_quotes(offer),
            (Err(m), Err(e)) => m@ == e,
            _ => false,
        },
{
    match parse(raw_json) {
        Ok(offer) => Ok(find_quotes(&offer)),
        Err(m) => Err(m),
    }
}

/// The rates of one SKU, as numbers; none where a text is no number.
#[derive(Debug)]
pub struct PricedQuote {
    pub kind: SkuKind,
    pub rates: Vec<Option<Double>>,
}

/// The smaller of two numbers; beside what is not a number, the other.
pub open spec fn smaller(a: Double, b: Double) -> Double {
    if b.nan() {
        a
    } else if a.nan() || b.less(a) {
        b
    } else {
        a
    }
}

/// The smallest of the rates that are above zero.
pub open spec fn best(rates: Seq<Option<Double>>) -> Option<Double>
    decreases rates.len(),
{
    if rates.len() == 0 {
        None
    } else {
        let front = best(rates.drop_last());
        match rates.last() {
            None => front,
            Some(raw) => if raw.at_most(Double::of_int(0)) {
                front
            } else {
                match front {
                    Some(cur) => Some(smaller(cur, raw)),
                    None => Some(raw),
                }
            },
        }
    }
}

/// The smallest of the rates that are above zero.
pub fn best_rate(rates: &Vec<Option<Double>>) -> (r: Option<Double>)
    ensures
        r == best(rates@),
{
    let n: usize = rates.len();
    let zero: Double = Double::from_i64(0);
    let mut r: Option<Double> = None;
    let mut i: usize = 0;
    while i < n
        invariant
            n == rates@.len(),
            i <= n,
            zero == Double::of_int(0),
            r == best(rates@.take(i as int)),
        decreases n - i,
    {
        proof {
            assert(rates@.take(i + 1).drop_last() =~= rates@.take(i as int));
            assert(rates@.take(i + 1).last() == rates@[i as int]);
        }
        if let Some(raw) = rates[i] {
            if !raw.le(zero) {
                r = match r {
                    None => Some(raw),
                    Some(cur) => if raw.get_magnitude() > crate::rounding::INFINITE {
                        Some(cur)
                    } else if cur.get_magnitude() > crate::rounding::INFINITE || raw.lt(cur) {
                        Some(raw)
                    } else {
                        Some(cur)
                    },
                };
            }
        }
        i += 1;
    }
    assert(rates@.take(n as int) =~= rates@);
    r
}

/// The prices of an offer, by product kind.
#[derive(Debug)]
pub struct OfferPrices {
    pub compute_per_minute: Rates,
    pub ebs_per_gb_month: Rates,
    pub ebs_per_iops_month: Rates,
    pub ebs_per_mibps_month: Rates,
}

/// What the prices of an offer say.
pub ghost struct OfferPricesView {
    pub compute_per_minute: Map<Seq<char>, Double>,
    pub ebs_per_gb_month: Map<Seq<char>, Double>,
    pub ebs_per_iops_month: Map<Seq<char>, Double>,
    pub ebs_per_mibps_month: Map<Seq<char>, Double>,
}

impl View for OfferPrices {
    type V = OfferPricesView;

    open spec fn view(&self) -> OfferPricesView {
        OfferPricesView {
            compute_per_minute: self.compute_per_minute@,
            ebs_per_gb_month: self.ebs_per_gb_month@,
            ebs_per_iops_month: self.ebs_per_iops_month@,
            ebs_per_mibps_month: self.ebs_per_mibps_month@,
        }
    }
}

/// The prices with the best rate of one more SKU. Compute is listed by the
/// hour and kept by the minute; throughput is listed by the GiBps and kept by
/// the MiBps.
pub open spec fn priced(p: OfferPricesView, kind: SkuKindView, rates: Seq<Option<Double>>) ->
    OfferPricesView {
    match best(rates) {
        None => p,
        Some(rate) => match kind {
            SkuKindView::Compute(key) => OfferPricesView {
                compute_per_minute: lowered(
                    p.compute_per_minute,
                    key,
                    rate.quotient(Double::of_int(60)),
                ),
                ..p
            },
            SkuKindView::EbsCapacity(key) => OfferPricesView {
                ebs_per_gb_month: lowered(p.ebs_per_gb_month, key, rate),
                ..p
            },
            SkuKindView::EbsIops(key) => OfferPricesView {
                ebs_per_iops_month: lowered(p.ebs_per_iops_month, key, rate),
                ..p
            },
            SkuKindView::EbsThroughput(key) => OfferPricesView {
                ebs_per_mibps_month: lowered(
                    p.ebs_per_mibps_month,
                    key,
                    rate.quotient(Double::of_int(1024)),
                ),
                ..p
            },
        },
    }
}

/// The prices of all quotes.
pub open spec fn all_priced(quotes: Seq<PricedQuote>) -> OfferPricesView
    decreases quotes.len(),
{
    if quotes.len() == 0 {
        OfferPricesView {
            compute_per_minute: Map::empty(),
            ebs_per_gb_month: Map::empty(),
            ebs_per_iops_month: Map::empty(),
            ebs_per_mibps_month: Map::empty(),
        }
    } else {
        priced(all_priced(quotes.drop_last()), quotes.last().kind@, quotes.last().rates@)
    }
}

/// The prices of all quotes.
pub fn collect_prices(quotes: &Vec<PricedQuote>) -> (r: OfferPrices)
    ensures
        r@ == all_priced(quotes@),
{
    let mut compute: Rates = Rates::new();
    let mut gb: Rates = Rates::new();
    let mut iops: Rates = Rates::new();
    let mut mibps: Rates = Rates::new();
    let n: usize = quotes.len();
    let mut i: usize = 0;
    while i < n
        invariant
            n == quotes@.len(),
            i <= n,
            (OfferPricesView {
                compute_per_minute: compute@,
                ebs_per_gb_month: gb@,
                ebs_per_iops_month: iops@,
                ebs_per_mibps_month: mibps@,
            }) == all_priced(quotes@.take(i as int)),
        decreases n - i,
    {
        proof {
            assert(quotes@.take(i + 1).drop_last() =~= quotes@.take(i as int));
            assert(quotes@.take(i + 1).last() == quotes@[i as int]);
        }
        let quote: &PricedQuote = &quotes[i];
        if let Some(rate) = best_rate(&quote.rates) {
            match &quote.kind {
                SkuKind::Compute(key) => {
                    compute = compute.upsert_min(
                        key.as_str(),
                        rate.over(Double::from_i64(60)),
                    );
                },
                SkuKind::EbsCapacity(key) => {
                    gb = gb.upsert_min(key.as_str(), rate);
                },
                SkuKind::EbsIops(key) => {
                    iops = iops.upsert_min(key.as_str(), rate);
                },
                SkuKind::EbsThroughput(key) => {
                    mibps = mibps.upsert_min(
                        key.as_str(),
                        rate.over(Double::from_i64(1024)),
                    );
                },
            }
        }
        i += 1;
    }
    assert(quotes@.take(n as int) =~= quotes@);
    OfferPrices {
        compute_per_minute: compute,
        ebs_per_gb_month: gb,
        ebs_per_iops_month: iops,
        ebs_per_mibps_month: mibps,
    }
}

/// How the price table is renewed, as the table itself says.
pub open spec fn update_hint() -> Seq<char> {
    "Update with: cargo run -- --regenerate-pricing-table [--pricing-offer-source file:///absolute/path/to/index.json]"@
}

/// Why a table without compute prices is refused.
pub open spec fn no_compute_text() -> Seq<char> {
    "no compute pricing entries matched filters (location=US East (N. Virginia), os=Linux, preInstalledSw=NA, tenancy=Shared)"@
}

/// The price table of an offer, with the number of instance types in it. An
/// offer without compute prices is refused.
pub fn price_table(prices: OfferPrices) -> (r: Result<(PriceTable, usize), String>)
    ensures
        r is Ok == (prices.compute_per_minute.list().len() > 0),
        r matches Ok((t, n)) ==> t.comment@ == update_hint() && t.prices_per_minute
            == prices.compute_per_minute && t.ebs_per_gb_month == prices.ebs_per_gb_month
            && t.ebs_per_iops_month == prices.ebs_per_iops_month && t.ebs_per_mibps_month
            == prices.ebs_per_mibps_month && n == prices.compute_per_minute.list().len(),
        r matches Err(m) ==> m@ == no_compute_text(),
{
    let n: usize = prices.compute_per_minute.len();
    if n == 0 {
        return Err(
            "no compute pricing entries matched filters (location=US East (N. Virginia), os=Linux, preInstalledSw=NA, tenancy=Shared)".to_string(),
        );
    }
    let table = PriceTable {
        comment:
            "Update with: cargo run -- --regenerate-pricing-table [--pricing-offer-source file:///absolute/path/to/index.json]".to_string(),
        prices_per_minute: prices.compute_per_minute,
        ebs_per_gb_month: prices.ebs_per_gb_month,
        ebs_per_iops_month: prices.ebs_per_iops_month,
        ebs_per_mibps_month: prices.ebs_per_mibps_month,
    };
    Ok((table, n))
}

/// Where an offer is read from.
#[derive(Debug)]
pub enum OfferSource {
    /// The path of a `file://` URL.
    FileUrl(String),
    /// A web address.
    Web(String),
    /// A path.
    Path(String),
}

/// Where an offer is read from, by the shape of the source.
pub fn offer_source(source: &str) -> (r: OfferSource)
    ensures
        if begins_with(source@, "file://"@) {
            r matches OfferSource::FileUrl(p) && p@ == source@.skip(7)
        } else if begins_with(source@, "http://"@) || begins_with(source@, "https://"@) {
            r matches OfferSource::Web(u) && u@ == source@
        } else {
            r matches OfferSource::Path(p) && p@ == source@
        },
{
    proof {
        reveal_strlit("file://");
    }
    if starts_with(source, "file://") {
        let chars: Vec<char> = crate::text::chars_of(source);
        let n: usize = chars.len();
        assert(source@.subrange(7, n as int) =~= source@.skip(7));
        return OfferSource::FileUrl(crate::text::text_of(&chars, 7, n));
    }
    if starts_with(source, "http://") || starts_with(source, "https://") {
        return OfferSource::Web(source.to_string());
    }
    OfferSource::Path(source.to_string())
}

} // verus!
