//! Which products of an offer count, and what becomes of their rates.

use vstd::prelude::*;

use crate::double::Double;
use crate::pricing::lowered;
use crate::pricing::offer::{
    all_priced, best, classified, dimension_rates, kind_for, kind_of, offer_quotes, offer_rates,
    sku_kinds, term_quotes, usd_text, PricedQuote, SkuKindView,
};
use crate::value::JsonView;

verus! {

/// A member of an object is found by its name, the first where there are
/// several; what has no such member has none.
pub proof fn members_are_found_by_name(members: Seq<(Seq<char>, JsonView)>, key: Seq<char>)
    ensures
        JsonView::Object(members).member(key) is Some <==> exists|k: int|
            0 <= k < members.len() && (#[trigger] members[k]).0 == key,
        JsonView::Object(members).member(key) is Some ==> exists|k: int|
            0 <= k < members.len() && (#[trigger] members[k]).0 == key && JsonView::Object(
                members,
            ).member(key) == Some(members[k].1) && forall|j: int|
                0 <= j < k ==> (#[trigger] members[j]).0 != key,
    decreases members.len(),
{
    if members.len() > 0 {
        if members[0].0 == key {
            assert(JsonView::Object(members).member(key) == Some(members[0].1));
        } else {
            let rest = members.drop_first();
            members_are_found_by_name(rest, key);
            assert(JsonView::Object(members).member(key) == JsonView::Object(rest).member(key));
            if JsonView::Object(rest).member(key) is Some {
                let k = choose|k: int|
                    0 <= k < rest.len() && (#[trigger] rest[k]).0 == key && JsonView::Object(
                        rest,
                    ).member(key) == Some(rest[k].1) && forall|j: int|
                        0 <= j < k ==> (#[trigger] rest[j]).0 != key;
                assert(members[k + 1] == rest[k]);
                assert forall|j: int| 0 <= j < k + 1 implies (#[trigger] members[j]).0 != key by {
                    if j > 0 {
                        assert(rest[j - 1] == members[j]);
                    }
                }
            } else {
                assert forall|k: int| 0 <= k < members.len() implies (#[trigger] members[k]).0
                    != key by {
                    if k > 0 {
                        assert(rest[k - 1] == members[k]);
                    }
                }
            }
        }
    }
}

/// Whether a product is sold in the region whose prices are taken.
pub open spec fn sold_in_virginia(product: JsonView) -> bool {
    product.member("attributes"@) matches Some(a) && a.member_text("location"@) == Some(
        "US East (N. Virginia)"@,
    )
}

/// Whether the attribute `key` of a product reads `value`.
pub open spec fn has_attribute(product: JsonView, key: Seq<char>, value: Seq<char>) -> bool {
    product.member("attributes"@) matches Some(a) && a.member_text(key) == Some(value)
}

proof fn reveal_families()
    ensures
        "Compute Instance"@ != "Storage"@,
        "Compute Instance"@ != "System Operation"@,
        "Compute Instance"@ != "Provisioned Throughput"@,
        "Compute Instance (bare metal)"@ != "Storage"@,
        "Compute Instance (bare metal)"@ != "System Operation"@,
        "Compute Instance (bare metal)"@ != "Provisioned Throughput"@,
        "Storage"@ != "System Operation"@,
        "Storage"@ != "Provisioned Throughput"@,
        "System Operation"@ != "Provisioned Throughput"@,
        "US East (N. Virginia)"@ != ""@,
        "Linux"@ != ""@,
        "NA"@ != ""@,
        "Shared"@ != ""@,
        "EBS IOPS"@ != ""@,
{
    reveal_strlit("Compute Instance");
    reveal_strlit("Compute Instance (bare metal)");
    reveal_strlit("Storage");
    reveal_strlit("System Operation");
    reveal_strlit("Provisioned Throughput");
    reveal_strlit("US East (N. Virginia)");
    reveal_strlit("Linux");
    reveal_strlit("NA");
    reveal_strlit("Shared");
    reveal_strlit("EBS IOPS");
    reveal_strlit("");
    assert("Compute Instance"@.len() == 16 && "Compute Instance"@[0] == 'C');
    assert("System Operation"@.len() == 16 && "System Operation"@[0] == 'S');
    assert("Compute Instance (bare metal)"@.len() == 29);
    assert("Storage"@.len() == 7);
    assert("Provisioned Throughput"@.len() == 22);
    assert("US East (N. Virginia)"@.len() == 21);
    assert("Linux"@.len() == 5 && "NA"@.len() == 2 && "Shared"@.len() == 6);
    assert("EBS IOPS"@.len() == 8 && ""@.len() == 0);
}

/// Only products that are sold in US East (N. Virginia) have a kind.
pub proof fn only_virginia_counts(product: JsonView)
    ensures
        kind_of(product) is Some ==> sold_in_virginia(product),
{
    reveal_families();
}

/// Compute is what runs plain Linux on shared hardware, in use or with no
/// capacity status at all; bare metal counts too.
pub proof fn compute_is_plain_shared_linux(product: JsonView, instance_type: Seq<char>)
    ensures
        kind_of(product) == Some(SkuKindView::Compute(instance_type)) <==> {
            &&& product.member_text("productFamily"@) == Some("Compute Instance"@)
                || product.member_text("productFamily"@) == Some("Compute Instance (bare metal)"@)
            &&& sold_in_virginia(product)
            &&& has_attribute(product, "instanceType"@, instance_type)
            &&& has_attribute(product, "operatingSystem"@, "Linux"@)
            &&& has_attribute(product, "preInstalledSw"@, "NA"@)
            &&& has_attribute(product, "tenancy"@, "Shared"@)
            &&& has_attribute(product, "capacitystatus"@, "Used"@) || has_attribute(
                product,
                "capacitystatus"@,
                ""@,
            ) || product.member("attributes"@)->0.member_text("capacitystatus"@) is None
        },
{
    reveal_families();
    reveal_strlit("");
    assert(""@.len() == 0);
    if let Some(a) = product.member("attributes"@) {
        let cap = a.text_or_empty("capacitystatus"@);
        if cap.len() == 0 {
            assert(cap =~= ""@);
        }
    }
}

/// Storage of a volume type is EBS capacity, system operations of the group
/// `EBS IOPS` are provisioned IOPS, and provisioned throughput is what it says.
/// Tiers above the base are left out.
pub proof fn volumes_count_by_family(product: JsonView, volume_type: Seq<char>)
    ensures
        kind_of(product) == Some(SkuKindView::EbsCapacity(volume_type)) <==> {
            &&& product.member_text("productFamily"@) == Some("Storage"@)
            &&& sold_in_virginia(product)
            &&& has_attribute(product, "volumeApiName"@, volume_type)
        },
        kind_of(product) == Some(SkuKindView::EbsIops(volume_type)) <==> {
            &&& product.member_text("productFamily"@) == Some("System Operation"@)
            &&& sold_in_virginia(product)
            &&& has_attribute(product, "volumeApiName"@, volume_type)
            &&& has_attribute(product, "group"@, "EBS IOPS"@)
        },
        kind_of(product) == Some(SkuKindView::EbsThroughput(volume_type)) <==> {
            &&& product.member_text("productFamily"@) == Some("Provisioned Throughput"@)
            &&& sold_in_virginia(product)
            &&& has_attribute(product, "volumeApiName"@, volume_type)
        },
{
    reveal_families();
}

proof fn lemma_classified_adds(a: Seq<(Seq<char>, JsonView)>, b: Seq<(Seq<char>, JsonView)>)
    ensures
        classified(a + b) == classified(a) + classified(b),
    decreases b.len(),
{
    if b.len() == 0 {
        assert(a + b =~= a);
        assert(classified(a) + classified(b) =~= classified(a));
    } else {
        assert((a + b).drop_last() =~= a + b.drop_last());
        assert((a + b).last() == b.last());
        lemma_classified_adds(a, b.drop_last());
        assert(classified(a + b) =~= classified(a) + classified(b));
    }
}

/// A product of another region may stand anywhere among the products of an
/// offer: the quotes are the same without it.
pub proof fn other_regions_do_not_matter(
    with: JsonView,
    without: JsonView,
    products: Seq<(Seq<char>, JsonView)>,
    i: int,
    sku: Seq<char>,
    product: JsonView,
)
    requires
        0 <= i <= products.len(),
        without.member_members("products"@) == Some(products),
        with.member_members("products"@) == Some(products.insert(i, (sku, product))),
        with.member("terms"@) == without.member("terms"@),
        !sold_in_virginia(product),
    ensures
        offer_quotes(with) == offer_quotes(without),
{
    only_virginia_counts(product);
    let a = products.take(i);
    let b = products.skip(i);
    let one = seq![(sku, product)];
    assert(products =~= a + b);
    assert(products.insert(i, (sku, product)) =~= (a + one) + b);
    lemma_classified_adds(a, b);
    lemma_classified_adds(a + one, b);
    lemma_classified_adds(a, one);
    assert(one.drop_last() =~= Seq::<(Seq<char>, JsonView)>::empty());
    reveal_with_fuel(classified, 2);
    assert(classified(one) =~= Seq::<(Seq<char>, SkuKindView)>::empty());
    assert(classified(a) + Seq::<(Seq<char>, SkuKindView)>::empty() =~= classified(a));
    assert(sku_kinds(with) == sku_kinds(without));
}

/// A SKU has a kind exactly where some product with that SKU has one, and its
/// kind is that of such a product.
pub proof fn skus_take_the_kind_of_their_product(
    products: Seq<(Seq<char>, JsonView)>,
    sku: Seq<char>,
)
    ensures
        kind_for(classified(products), sku) is Some <==> exists|i: int|
            0 <= i < products.len() && (#[trigger] products[i]).0 == sku && kind_of(
                products[i].1,
            ) is Some,
        kind_for(classified(products), sku) is Some ==> exists|i: int|
            0 <= i < products.len() && (#[trigger] products[i]).0 == sku && kind_of(products[i].1)
                == kind_for(classified(products), sku),
    decreases products.len(),
{
    if products.len() > 0 {
        let front = products.drop_last();
        let n = products.len() - 1;
        skus_take_the_kind_of_their_product(front, sku);
        let kinds = classified(products);
        if kind_of(products[n].1) is Some {
            assert(kinds.drop_last() =~= classified(front));
        }
        if kind_of(products[n].1) is Some && products[n].0 == sku {
            assert(kind_for(kinds, sku) == kind_of(products[n].1));
        } else {
            assert(kind_for(kinds, sku) == kind_for(classified(front), sku));
            if kind_for(classified(front), sku) is Some {
                let i = choose|i: int|
                    0 <= i < front.len() && (#[trigger] front[i]).0 == sku && kind_of(front[i].1)
                        == kind_for(classified(front), sku);
                assert(products[i] == front[i]);
            } else {
                assert forall|i: int|
                    0 <= i < products.len() && (#[trigger] products[i]).0 == sku implies kind_of(
                    products[i].1,
                ) is None by {
                    if i < n {
                        assert(front[i] == products[i]);
                    }
                }
            }
        }
    }
}

/// Every on-demand term whose SKU has a kind gives a quote, and there is no
/// other quote: it has the kind of the SKU and the rates of the term.
pub proof fn quotes_come_from_terms(
    kinds: Seq<(Seq<char>, SkuKindView)>,
    terms: Seq<(Seq<char>, JsonView)>,
    kind: SkuKindView,
    rates: Seq<Seq<char>>,
)
    ensures
        term_quotes(kinds, terms).contains((kind, rates)) <==> exists|j: int|
            0 <= j < terms.len() && kind_for(kinds, (#[trigger] terms[j]).0) == Some(kind)
                && terms[j].1.members() is Some && rates == offer_rates(
                kind,
                terms[j].1.members()->0,
            ),
    decreases terms.len(),
{
    let all = term_quotes(kinds, terms);
    if terms.len() > 0 {
        let front = terms.drop_last();
        let n = terms.len() - 1;
        let some = term_quotes(kinds, front);
        quotes_come_from_terms(kinds, front, kind, rates);
        assert(terms[n] == terms.last());
        if all.contains((kind, rates)) {
            let k = choose|k: int| 0 <= k < all.len() && all[k] == (kind, rates);
            if k < some.len() {
                assert(some[k] == all[k]);
                assert(some.contains((kind, rates)));
                let j = choose|j: int|
                    0 <= j < front.len() && kind_for(kinds, (#[trigger] front[j]).0) == Some(kind)
                        && front[j].1.members() is Some && rates == offer_rates(
                        kind,
                        front[j].1.members()->0,
                    );
                assert(terms[j] == front[j]);
            }
        }
        if exists|j: int|
            0 <= j < terms.len() && kind_for(kinds, (#[trigger] terms[j]).0) == Some(kind)
                && terms[j].1.members() is Some && rates == offer_rates(
                kind,
                terms[j].1.members()->0,
            ) {
            let j = choose|j: int|
                0 <= j < terms.len() && kind_for(kinds, (#[trigger] terms[j]).0) == Some(kind)
                    && terms[j].1.members() is Some && rates == offer_rates(
                    kind,
                    terms[j].1.members()->0,
                );
            if j < n {
                assert(front[j] == terms[j]);
                assert(some.contains((kind, rates)));
                let k = choose|k: int| 0 <= k < some.len() && some[k] == (kind, rates);
                assert(all[k] == (kind, rates));
            } else {
                assert(all[some.len() as int] == (kind, rates));
            }
        }
    }
}

/// Quotes are taken from the on-demand terms of the offer, and an offer without
/// such terms has none.
pub proof fn quotes_are_on_demand(offer: JsonView)
    ensures
        offer.member("terms"@) is None ==> offer_quotes(offer).len() == 0,
        offer.member("terms"@) is Some && offer.member("terms"@)->0.member_members("OnDemand"@)
            is None ==> offer_quotes(offer).len() == 0,
        offer.member("terms"@) is Some && offer.member("terms"@)->0.member_members("OnDemand"@)
            is Some && offer.member_members("products"@) is Some ==> offer_quotes(offer)
            == term_quotes(
            classified(offer.member_members("products"@)->0),
            offer.member("terms"@)->0.member_members("OnDemand"@)->0,
        ),
{
}

/// Whether a price is per hour, gigabyte-month, IOPS-month or
/// gibibyte-per-second-month, as the kind asks for.
pub open spec fn billed_as(kind: SkuKindView, dimension: JsonView) -> bool {
    let unit = dimension.member_text("unit"@);
    ||| kind is Compute && unit == Some("Hrs"@)
    ||| kind is EbsCapacity && (unit == Some("GB-Mo"@) || unit == Some("GB-month"@))
    ||| kind is EbsIops && unit == Some("IOPS-Mo"@)
    ||| kind is EbsThroughput && unit == Some("GiBps-mo"@)
}

proof fn reveal_units()
    ensures
        "Hrs"@ != ""@,
        "GB-Mo"@ != ""@,
        "GB-month"@ != ""@,
        "IOPS-Mo"@ != ""@,
        "GiBps-mo"@ != ""@,
{
    reveal_strlit("Hrs");
    reveal_strlit("GB-Mo");
    reveal_strlit("GB-month");
    reveal_strlit("IOPS-Mo");
    reveal_strlit("GiBps-mo");
    reveal_strlit("");
    assert("Hrs"@.len() == 3 && "GB-Mo"@.len() == 5 && "GB-month"@.len() == 8);
    assert("IOPS-Mo"@.len() == 7 && "GiBps-mo"@.len() == 8 && ""@.len() == 0);
}

/// The rates of a term are the USD prices of the dimensions in the unit of the
/// kind: each of those, and no other.
pub proof fn rates_are_in_the_unit_of_the_kind(
    kind: SkuKindView,
    dimensions: Seq<(Seq<char>, JsonView)>,
    rate: Seq<char>,
)
    ensures
        dimension_rates(kind, dimensions).contains(rate) <==> exists|i: int|
            0 <= i < dimensions.len() && billed_as(kind, (#[trigger] dimensions[i]).1) && rate == (
            match dimensions[i].1.member("pricePerUnit"@) {
                Some(price) => match price.member_text("USD"@) {
                    Some(usd) => usd,
                    None => ""@,
                },
                None => ""@,
            }),
    decreases dimensions.len(),
{
    reveal_units();
    let all = dimension_rates(kind, dimensions);
    if dimensions.len() > 0 {
        let front = dimensions.drop_last();
        let n = dimensions.len() - 1;
        let some = dimension_rates(kind, front);
        rates_are_in_the_unit_of_the_kind(kind, front, rate);
        assert(dimensions[n] == dimensions.last());
        if all.contains(rate) {
            let k = choose|k: int| 0 <= k < all.len() && all[k] == rate;
            if k < some.len() {
                assert(some[k] == rate);
                assert(some.contains(rate));
                let i = choose|i: int|
                    0 <= i < front.len() && billed_as(kind, (#[trigger] front[i]).1) && rate
                        == usd_text(front[i].1);
                assert(dimensions[i] == front[i]);
            }
        }
        if exists|i: int|
            0 <= i < dimensions.len() && billed_as(kind, (#[trigger] dimensions[i]).1) && rate
                == usd_text(dimensions[i].1) {
            let i = choose|i: int|
                0 <= i < dimensions.len() && billed_as(kind, (#[trigger] dimensions[i]).1) && rate
                    == usd_text(dimensions[i].1);
            if i < n {
                assert(front[i] == dimensions[i]);
                assert(some.contains(rate));
                let k = choose|k: int| 0 <= k < some.len() && some[k] == rate;
                assert(all[k] == rate);
            } else {
                assert(all[some.len() as int] == rate);
            }
        }
    }
}

/// The rates of a SKU are those of all its offers.
pub proof fn rates_come_from_all_offers(
    kind: SkuKindView,
    offers: Seq<(Seq<char>, JsonView)>,
    rate: Seq<char>,
)
    ensures
        offer_rates(kind, offers).contains(rate) <==> exists|i: int|
            0 <= i < offers.len() && (#[trigger] offers[i]).1.member_members("priceDimensions"@)
                is Some && dimension_rates(
                kind,
                offers[i].1.member_members("priceDimensions"@)->0,
            ).contains(rate),
    decreases offers.len(),
{
    let all = offer_rates(kind, offers);
    if offers.len() > 0 {
        let front = offers.drop_last();
        let n = offers.len() - 1;
        let some = offer_rates(kind, front);
        rates_come_from_all_offers(kind, front, rate);
        assert(offers[n] == offers.last());
        if all.contains(rate) {
            let k = choose|k: int| 0 <= k < all.len() && all[k] == rate;
            if k < some.len() {
                assert(some[k] == rate);
                assert(some.contains(rate));
                let i = choose|i: int|
                    0 <= i < front.len() && (#[trigger] front[i]).1.member_members(
                        "priceDimensions"@,
                    ) is Some && dimension_rates(
                        kind,
                        front[i].1.member_members("priceDimensions"@)->0,
                    ).contains(rate);
                assert(offers[i] == front[i]);
            } else {
                let last = dimension_rates(
                    kind,
                    offers[n].1.member_members("priceDimensions"@)->0,
                );
                assert(last[k - some.len()] == rate);
            }
        }
        if exists|i: int|
            0 <= i < offers.len() && (#[trigger] offers[i]).1.member_members("priceDimensions"@)
                is Some && dimension_rates(
                kind,
                offers[i].1.member_members("priceDimensions"@)->0,
            ).contains(rate) {
            let i = choose|i: int|
                0 <= i < offers.len() && (#[trigger] offers[i]).1.member_members(
                    "priceDimensions"@,
                ) is Some && dimension_rates(
                    kind,
                    offers[i].1.member_members("priceDimensions"@)->0,
                ).contains(rate);
            if i < n {
                assert(front[i] == offers[i]);
                assert(some.contains(rate));
                let k = choose|k: int| 0 <= k < some.len() && some[k] == rate;
                assert(all[k] == rate);
            } else {
                let last = dimension_rates(
                    kind,
                    offers[n].1.member_members("priceDimensions"@)->0,
                );
                let k = choose|k: int| 0 <= k < last.len() && last[k] == rate;
                assert(all[some.len() + k] == rate);
            }
        }
    }
}

/// Whether a rate is a number above zero.
pub open spec fn positive(rate: Option<Double>) -> bool {
    rate is Some && Double::of_int(0).less(rate->0)
}

/// The best of some rates is the lowest above zero: one of them, and no other
/// above zero is lower. Where none is above zero there is none.
pub proof fn the_best_rate_is_the_lowest_above_zero(rates: Seq<Option<Double>>)
    requires
        forall|i: int| 0 <= i < rates.len() && #[trigger] rates[i] is Some ==> !rates[i]->0.nan(),
    ensures
        best(rates) is Some <==> exists|i: int|
            0 <= i < rates.len() && positive(#[trigger] rates[i]),
        best(rates) is Some ==> positive(best(rates)) && rates.contains(best(rates)),
        forall|i: int|
            0 <= i < rates.len() && positive(#[trigger] rates[i]) ==> best(rates)->0.at_most(
                rates[i]->0,
            ),
    decreases rates.len(),
{
    crate::double::zero_adds_nothing(Double { bits: 0 });
    if rates.len() > 0 {
        let front = rates.drop_last();
        let n = rates.len() - 1;
        assert(rates[n] == rates.last());
        assert forall|i: int| 0 <= i < front.len() && #[trigger] front[i] is Some implies !(
        front[i]->0).nan() by {
            assert(rates[i] == front[i]);
        }
        the_best_rate_is_the_lowest_above_zero(front);
        if best(front) is Some {
            let k = choose|k: int| 0 <= k < front.len() && front[k] == best(front);
            assert(rates[k] == front[k]);
        }
        assert forall|i: int| 0 <= i < rates.len() && positive(#[trigger] rates[i]) implies best(
            rates,
        ) is Some && best(rates)->0.at_most(rates[i]->0) by {
            if i < n {
                assert(front[i] == rates[i]);
                assert(positive(front[i]));
            }
        }
    }
}

/// Where the rate of a SKU goes.
pub ghost enum Bucket {
    ComputePerMinute,
    PerGbMonth,
    PerIopsMonth,
    PerMibpsMonth,
}

/// The rate that a quote brings to a bucket at a key: compute by the minute,
/// a sixtieth of the hourly rate; throughput by the MiB, of which 1024 are a
/// GiB.
pub open spec fn brings(q: PricedQuote, bucket: Bucket, key: Seq<char>, rate: Double) -> bool {
    best(q.rates@) matches Some(r) && match bucket {
        Bucket::ComputePerMinute => q.kind@ == SkuKindView::Compute(key) && rate == r.quotient(
            Double::of_int(60),
        ),
        Bucket::PerGbMonth => q.kind@ == SkuKindView::EbsCapacity(key) && rate == r,
        Bucket::PerIopsMonth => q.kind@ == SkuKindView::EbsIops(key) && rate == r,
        Bucket::PerMibpsMonth => q.kind@ == SkuKindView::EbsThroughput(key) && rate == r.quotient(
            Double::of_int(1024),
        ),
    }
}

/// The rates that the quotes give for a bucket.
pub open spec fn bucket_of(quotes: Seq<PricedQuote>, bucket: Bucket) -> Map<Seq<char>, Double> {
    match bucket {
        Bucket::ComputePerMinute => all_priced(quotes).compute_per_minute,
        Bucket::PerGbMonth => all_priced(quotes).ebs_per_gb_month,
        Bucket::PerIopsMonth => all_priced(quotes).ebs_per_iops_month,
        Bucket::PerMibpsMonth => all_priced(quotes).ebs_per_mibps_month,
    }
}

/// A table has a rate for a key exactly where some quote brings one, it is the
/// rate that one of them brings, and none brings a lower one.
pub proof fn the_table_keeps_the_cheapest(
    quotes: Seq<PricedQuote>,
    bucket: Bucket,
    key: Seq<char>,
)
    ensures
        bucket_of(quotes, bucket).contains_key(key) <==> exists|i: int, rate: Double|
            0 <= i < quotes.len() && #[trigger] brings(quotes[i], bucket, key, rate),
        bucket_of(quotes, bucket).contains_key(key) ==> exists|i: int|
            0 <= i < quotes.len() && #[trigger] brings(
                quotes[i],
                bucket,
                key,
                bucket_of(quotes, bucket)[key],
            ),
        forall|i: int, rate: Double|
            0 <= i < quotes.len() && #[trigger] brings(quotes[i], bucket, key, rate) && (forall|
                j: int,
                other: Double,
            |
                0 <= j < quotes.len() && #[trigger] brings(quotes[j], bucket, key, other)
                    ==> !other.nan()) ==> !rate.less(bucket_of(quotes, bucket)[key]),
    decreases quotes.len(),
{
    if quotes.len() > 0 {
        let front = quotes.drop_last();
        let n = quotes.len() - 1;
        let last = quotes[n];
        assert(quotes.last() == last);
        the_table_keeps_the_cheapest(front, bucket, key);
        let before = bucket_of(front, bucket);
        let after = bucket_of(quotes, bucket);
        assert forall|i: int, rate: Double|
            0 <= i < front.len() && #[trigger] brings(front[i], bucket, key, rate) implies brings(
            quotes[i],
            bucket,
            key,
            rate,
        ) by {
            assert(quotes[i] == front[i]);
        }
        if exists|rate: Double| #[trigger] brings(last, bucket, key, rate) {
            let rate = choose|rate: Double| #[trigger] brings(last, bucket, key, rate);
            assert(brings(quotes[n], bucket, key, rate));
            assert(after == lowered(before, key, rate));
            assert(forall|r: Double| #[trigger] brings(last, bucket, key, r) ==> r == rate);
            if after[key] != rate || !(!before.contains_key(key) || rate.less(before[key])) {
                assert(before.contains_key(key));
                let i = choose|i: int|
                    0 <= i < front.len() && #[trigger] brings(front[i], bucket, key, before[key]);
                assert(brings(quotes[i], bucket, key, before[key]));
            }
        } else {
            if let Some(r) = best(last.rates@) {
                assert(!brings(last, bucket, key, r));
                assert(!brings(last, bucket, key, r.quotient(Double::of_int(60))));
                assert(!brings(last, bucket, key, r.quotient(Double::of_int(1024))));
            }
            assert(after.contains_key(key) == before.contains_key(key));
            assert(before.contains_key(key) ==> after[key] == before[key]);
            if before.contains_key(key) {
                let i = choose|i: int|
                    0 <= i < front.len() && #[trigger] brings(front[i], bucket, key, before[key]);
                assert(brings(quotes[i], bucket, key, before[key]));
            }
        }
        assert forall|i: int, rate: Double|
            0 <= i < quotes.len() && #[trigger] brings(quotes[i], bucket, key, rate) implies (
        i == n || brings(front[i], bucket, key, rate)) by {
            if i < n {
                assert(quotes[i] == front[i]);
            }
        }
        if forall|j: int, other: Double|
            0 <= j < quotes.len() && #[trigger] brings(quotes[j], bucket, key, other)
                ==> !other.nan() {
            assert forall|j: int, other: Double|
                0 <= j < front.len() && #[trigger] brings(
                    front[j],
                    bucket,
                    key,
                    other,
                ) implies !other.nan() by {
                assert(brings(quotes[j], bucket, key, other));
            }
            assert forall|i: int, rate: Double|
                0 <= i < quotes.len() && #[trigger] brings(
                    quotes[i],
                    bucket,
                    key,
                    rate,
                ) implies !rate.less(after[key]) by {
                if i < n {
                    assert(brings(front[i], bucket, key, rate));
                    assert(!rate.less(before[key]));
                }
            }
        }
    }
}

} // verus!
