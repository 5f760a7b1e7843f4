use gasleak::double::Double;
use gasleak::pricing::offer::{
    best_rate, collect_prices, offer_source, parse_public_offer_prices, price_table, OfferSource,
    PricedQuote, Quote, SkuKind,
};
use gasleak::pricing::{
    ebs_capacity_cost_usd, ebs_iops_cost_usd, ebs_throughput_cost_usd, lookup_ebs_per_gb_month,
    lookup_ebs_per_iops_month, lookup_ebs_per_mibps_month, lookup_price_per_minute,
    seconds_to_months, PriceTable, Rates,
};

fn d(x: f64) -> Double {
    Double { bits: x.to_bits() }
}

fn f(x: Double) -> f64 {
    f64::from_bits(x.bits)
}

fn table() -> PriceTable {
    PriceTable {
        comment: String::new(),
        prices_per_minute: Rates::new().with("t3.micro", d(0.0104 / 60.0)),
        ebs_per_gb_month: Rates::new()
            .with("gp3", d(0.08))
            .with("gp2", d(0.1))
            .with("st1", d(0.045))
            .with("standard", d(0.05))
            .with("io2", d(0.125)),
        ebs_per_iops_month: Rates::new().with("gp3", d(0.005)).with("io2", d(0.065)),
        ebs_per_mibps_month: Rates::new().with("gp3", d(0.04)),
    }
}

fn priced(quotes: Vec<Quote>) -> Vec<PricedQuote> {
    quotes
        .into_iter()
        .map(|q| PricedQuote {
            kind: q.kind,
            rates: q.rates.iter().map(|r| r.parse::<f64>().ok().map(d)).collect(),
        })
        .collect()
}

#[test]
fn unknown_instance_type_returns_none() {
    assert!(lookup_price_per_minute(&table(), "definitely-not-a-real-instance-type").is_none());
}

#[test]
fn parses_public_offer_file_shape() {
    let sample = r#"{
        "products": {
            "SKU1": {
                "productFamily": "Compute Instance",
                "attributes": {
                    "instanceType": "t3.micro",
                    "location": "US East (N. Virginia)",
                    "operatingSystem": "Linux",
                    "preInstalledSw": "NA",
                    "tenancy": "Shared",
                    "capacitystatus": "Used"
                }
            },
            "SKU_GP3_GB": {
                "productFamily": "Storage",
                "attributes": {
                    "location": "US East (N. Virginia)",
                    "volumeApiName": "gp3"
                }
            },
            "SKU_IO2_GB": {
                "productFamily": "Storage",
                "attributes": {
                    "location": "US East (N. Virginia)",
                    "volumeApiName": "io2"
                }
            },
            "SKU_GP3_IOPS": {
                "productFamily": "System Operation",
                "attributes": {
                    "location": "US East (N. Virginia)",
                    "group": "EBS IOPS",
                    "volumeApiName": "gp3"
                }
            },
            "SKU_IO2_TIER2": {
                "productFamily": "System Operation",
                "attributes": {
                    "location": "US East (N. Virginia)",
                    "group": "EBS IOPS Tier 2",
                    "volumeApiName": "io2"
                }
            },
            "SKU_GP3_MBPS": {
                "productFamily": "Provisioned Throughput",
                "attributes": {
                    "location": "US East (N. Virginia)",
                    "volumeApiName": "gp3"
                }
            },
            "SKU_SNAPSHOT": {
                "productFamily": "Storage Snapshot",
                "attributes": {
                    "location": "US East (N. Virginia)",
                    "volumeApiName": "gp3"
                }
            }
        },
        "terms": {
            "OnDemand": {
                "SKU1": {
                    "TERM1": {
                        "priceDimensions": {
                            "DIM1": { "unit": "Hrs", "pricePerUnit": { "USD": "0.0104" } }
                        }
                    }
                },
                "SKU_GP3_GB": {
                    "T": {
                        "priceDimensions": {
                            "D": { "unit": "GB-Mo", "pricePerUnit": { "USD": "0.08" } }
                        }
                    }
                },
                "SKU_IO2_GB": {
                    "T": {
                        "priceDimensions": {
                            "D": { "unit": "GB-month", "pricePerUnit": { "USD": "0.125" } }
                        }
                    }
                },
                "SKU_GP3_IOPS": {
                    "T": {
                        "priceDimensions": {
                            "D": { "unit": "IOPS-Mo", "pricePerUnit": { "USD": "0.005" } }
                        }
                    }
                },
                "SKU_IO2_TIER2": {
                    "T": {
                        "priceDimensions": {
                            "D": { "unit": "IOPS-Mo", "pricePerUnit": { "USD": "0.0455" } }
                        }
                    }
                },
                "SKU_GP3_MBPS": {
                    "T": {
                        "priceDimensions": {
                            "D": { "unit": "GiBps-mo", "pricePerUnit": { "USD": "40.96" } }
                        }
                    }
                },
                "SKU_SNAPSHOT": {
                    "T": {
                        "priceDimensions": {
                            "D": { "unit": "GB-Mo", "pricePerUnit": { "USD": "0.05" } }
                        }
                    }
                }
            }
        }
    }"#;

    let quotes = parse_public_offer_prices(sample).expect("parse should succeed");
    let parsed = collect_prices(&priced(quotes));

    // Compute rate: $0.0104/hr → per-minute.
    let compute = parsed
        .compute_per_minute
        .get("t3.micro")
        .map(f)
        .expect("compute rate present");
    assert!((compute - (0.0104 / 60.0)).abs() < 1e-12);

    // Capacity rates: both "GB-Mo" and "GB-month" unit strings accepted.
    assert!((f(parsed.ebs_per_gb_month.get("gp3").unwrap()) - 0.08).abs() < 1e-12);
    assert!((f(parsed.ebs_per_gb_month.get("io2").unwrap()) - 0.125).abs() < 1e-12);

    // Base-tier IOPS only; tiered SKUs with group != "EBS IOPS" are ignored.
    assert!((f(parsed.ebs_per_iops_month.get("gp3").unwrap()) - 0.005).abs() < 1e-12);
    assert!(parsed.ebs_per_iops_month.get("io2").is_none());

    // Throughput stored per-MiBps: $40.96/GiBps-Mo ÷ 1024 = $0.04/MiBps-Mo.
    assert!((f(parsed.ebs_per_mibps_month.get("gp3").unwrap()) - 0.04).abs() < 1e-12);

    // Snapshots must be filtered out.
    assert!(parsed.ebs_per_gb_month.get("snapshot").is_none());

    let (table, types) = price_table(parsed).unwrap();
    assert_eq!(types, 1);
    assert!(table.comment.starts_with("Update with: cargo run -- --regenerate-pricing-table"));
}

#[test]
fn parses_file_url_to_path() {
    let source = "file:///tmp/index.json";
    let path = source.strip_prefix("file://").expect("has prefix");
    assert_eq!(path, "/tmp/index.json");
    assert!(matches!(offer_source(source), OfferSource::FileUrl(p) if p == "/tmp/index.json"));
}

#[test]
fn other_sources_are_web_addresses_or_paths() {
    assert!(matches!(offer_source("http://a/b"), OfferSource::Web(u) if u == "http://a/b"));
    assert!(matches!(offer_source("https://a/b"), OfferSource::Web(u) if u == "https://a/b"));
    assert!(matches!(offer_source("tmp/http://a"), OfferSource::Path(p) if p == "tmp/http://a"));
}

#[test]
fn capacity_cost_applies_rate_times_size_times_months() {
    let t = table();
    let rate = lookup_ebs_per_gb_month(&t, "gp3").expect("gp3 rate present in shipped table");
    let cost = ebs_capacity_cost_usd(&t, "gp3", 100, d(1.0));
    assert!((f(cost) - 100.0 * f(rate)).abs() < 1e-9);
}

#[test]
fn capacity_cost_zero_for_unknown_volume_type() {
    assert_eq!(f(ebs_capacity_cost_usd(&table(), "future_ebs_type", 1000, d(1.0))), 0.0);
}

#[test]
fn iops_cost_gp3_respects_3000_baseline() {
    let t = table();
    let rate = lookup_ebs_per_iops_month(&t, "gp3").expect("gp3 iops rate present");
    // Under baseline → no billable IOPS.
    assert_eq!(f(ebs_iops_cost_usd(&t, "gp3", 2500, d(1.0))), 0.0);
    // 5000 provisioned → 2000 billable.
    let cost = ebs_iops_cost_usd(&t, "gp3", 5000, d(1.0));
    assert!((f(cost) - 2000.0 * f(rate)).abs() < 1e-9);
}

#[test]
fn iops_cost_io2_bills_all_provisioned_iops() {
    let t = table();
    let rate = lookup_ebs_per_iops_month(&t, "io2").expect("io2 iops rate present");
    let cost = ebs_iops_cost_usd(&t, "io2", 5000, d(1.0));
    assert!((f(cost) - 5000.0 * f(rate)).abs() < 1e-9);
}

#[test]
fn iops_cost_zero_for_types_without_iops_rate() {
    let t = table();
    assert_eq!(f(ebs_iops_cost_usd(&t, "gp2", 1000, d(1.0))), 0.0);
    assert_eq!(f(ebs_iops_cost_usd(&t, "st1", 500, d(1.0))), 0.0);
    assert_eq!(f(ebs_iops_cost_usd(&t, "standard", 100, d(1.0))), 0.0);
}

#[test]
fn throughput_cost_gp3_respects_125_baseline() {
    let t = table();
    let rate = lookup_ebs_per_mibps_month(&t, "gp3").expect("gp3 throughput rate present");
    assert_eq!(f(ebs_throughput_cost_usd(&t, "gp3", 125, d(1.0))), 0.0);
    let cost = ebs_throughput_cost_usd(&t, "gp3", 200, d(1.0));
    assert!((f(cost) - 75.0 * f(rate)).abs() < 1e-9);
}

#[test]
fn throughput_cost_zero_for_non_gp3() {
    let t = table();
    assert_eq!(f(ebs_throughput_cost_usd(&t, "io2", 1000, d(1.0))), 0.0);
    assert_eq!(f(ebs_throughput_cost_usd(&t, "gp2", 500, d(1.0))), 0.0);
}

#[test]
fn seconds_to_months_uses_730_hour_denominator() {
    // AWS convention: 730 hours = 1 "month".
    let one_month_secs = 730 * 3600;
    assert!((f(seconds_to_months(one_month_secs)) - 1.0).abs() < 1e-12);
    assert_eq!(f(seconds_to_months(0)), 0.0);
    // Negative input is clamped to 0 (defensive against clock skew).
    assert_eq!(f(seconds_to_months(-100)), 0.0);
}

#[test]
fn formulas_are_exact_to_the_last_bit() {
    let t = table();
    let months = d(1234567.0 / (730.0 * 3600.0));
    assert_eq!(seconds_to_months(1234567), months);
    assert_eq!(ebs_capacity_cost_usd(&t, "gp3", 77, months), d(77.0 * 0.08 * f(months)));
    assert_eq!(ebs_iops_cost_usd(&t, "io2", 777, months), d(777.0 * 0.065 * f(months)));
    assert_eq!(ebs_throughput_cost_usd(&t, "gp3", 1000, months), d(875.0 * 0.04 * f(months)));
}

#[test]
fn malformed_offers_are_refused() {
    let err = parse_public_offer_prices("{ nonsense").unwrap_err();
    assert_eq!(err, serde_json::from_str::<serde_json::Value>("{ nonsense").unwrap_err().to_string());
    assert!(parse_public_offer_prices("[]").unwrap().is_empty());
    let refused = price_table(collect_prices(&vec![])).unwrap_err();
    assert!(refused.starts_with("no compute pricing entries matched filters (location=US East (N. Virginia)"));
}

#[test]
fn quotes_keep_the_smallest_positive_rate() {
    assert_eq!(best_rate(&vec![]), None);
    assert_eq!(best_rate(&vec![None, Some(d(0.0)), Some(d(-1.0))]), None);
    assert_eq!(best_rate(&vec![Some(d(3.0)), Some(d(0.0)), Some(d(2.0)), None]), Some(d(2.0)));
    assert_eq!(best_rate(&vec![Some(d(f64::NAN)), Some(d(2.0))]), Some(d(2.0)));
    assert_eq!(best_rate(&vec![Some(d(2.0)), Some(d(f64::NAN))]), Some(d(2.0)));
}

#[test]
fn lower_rates_win_between_skus() {
    let quote = |k: &str, rate: f64| PricedQuote {
        kind: SkuKind::EbsCapacity(k.into()),
        rates: vec![Some(d(rate))],
    };
    let p = collect_prices(&vec![quote("gp3", 0.2), quote("gp3", 0.1), quote("gp3", 0.3), quote("io1", 1.0)]);
    assert_eq!(p.ebs_per_gb_month.get("gp3"), Some(d(0.1)));
    assert_eq!(p.ebs_per_gb_month.len(), 2);
    assert_eq!(p.ebs_per_gb_month.entry(0), ("gp3", d(0.1)));
    assert_eq!(p.ebs_per_gb_month.entry(1), ("io1", d(1.0)));
    assert_eq!(p.ebs_per_iops_month.len(), 0);
}

#[test]
fn rates_are_kept_in_the_order_of_first_sight() {
    let r = Rates::new().with("b", d(1.0)).with("a", d(2.0)).with("b", d(3.0)).with("aa", d(4.0));
    let keys: Vec<&str> = (0..r.len()).map(|i| r.entry(i).0).collect();
    assert_eq!(keys, vec!["b", "a", "aa"]);
    assert_eq!(r.get("b"), Some(d(3.0)));
    let r = r.upsert_min("b", d(5.0)).upsert_min("a", d(1.0)).upsert_min("c", d(9.0));
    assert_eq!(r.get("b"), Some(d(3.0)));
    assert_eq!(r.get("a"), Some(d(1.0)));
    assert_eq!(r.get("c"), Some(d(9.0)));
}
