//! Rendering: table rows, filtering, and the end-to-end path from a
//! provider response to the displayed summary.

use portfolio_agent::present::{portfolio_report, summary_lines};
use portfolio_agent::tools::portfolio::{overview_json, overview_of};
use portfolio_agent::zapper::client::interpret_response;

#[test]
fn network_rows_drop_zero_and_negative_totals_and_keep_order() {
    let doc = r#"{
        "total_value": 1.0, "total_with_nft": 1.0, "apps_total": 0.0,
        "holdings": [],
        "network_breakdown": [
            {"network": "ethereum", "total": 5.0},
            {"network": "ghostnet", "total": 0.0},
            {"network": "burntnet", "total": -5.0},
            {"network": "base", "total": 2.5}
        ]
    }"#;
    let rep = portfolio_report(doc).unwrap();
    assert_eq!(rep.networks.len(), 2);
    assert_eq!(rep.networks[0].0, "ethereum");
    assert_eq!(rep.networks[0].1, "$ 5.00");
    assert_eq!(rep.networks[1].0, "base");
    assert_eq!(rep.networks[1].1, "$ 2.50");
}

#[test]
fn missing_members_default_to_zero_and_empty() {
    let rep = portfolio_report("{}").unwrap();
    assert_eq!(rep.total_value, "$ 0.00");
    assert_eq!(rep.total_with_nft, "$ 0.00");
    assert_eq!(rep.apps_total, "$ 0.00");
    assert!(rep.holdings.is_empty());
    assert!(rep.networks.is_empty());
}

#[test]
fn malformed_text_yields_no_report() {
    assert!(portfolio_report("not json at all").is_none());
    assert!(portfolio_report("{\"total_value\": }").is_none());
}

#[test]
fn holdings_rows_format_balance_and_percentage() {
    let doc = r#"{"holdings": [
        {"label": "ETH", "balanceUSD": 10000.0, "pct": 0.81},
        {"label": "SOL", "balanceUSD": 999.999, "pct": 0.0051}
    ]}"#;
    let rep = portfolio_report(doc).unwrap();
    assert_eq!(rep.holdings.len(), 2);
    assert_eq!(rep.holdings[0], ("ETH".to_string(), "$ 10.00K".to_string(), "81.00%".to_string()));
    assert_eq!(rep.holdings[1].1, "$ 1000.00");
    assert_eq!(rep.holdings[1].2, "0.51%");
}

#[test]
fn summary_lines_carry_the_three_totals() {
    let doc = r#"{"total_value": 12345.67, "total_with_nft": 13000.0, "apps_total": 200.0}"#;
    let rep = portfolio_report(doc).unwrap();
    let lines = summary_lines(&rep);
    assert_eq!(lines[0], "Total Portfolio Value: $ 12.35K");
    assert_eq!(lines[1], "Total with NFTs: $ 13.00K");
    assert_eq!(lines[2], "DeFi Apps Value: $ 200.00");
}

#[test]
fn a_full_turn_renders_the_expected_summary_and_rows() {
    let provider_response = r#"{"data": {"portfolio": {
        "appBalances": [], "tokenBalances": [], "nftBalances": [],
        "totals": {
            "total": 12345.67,
            "totalWithNFT": 13000.0,
            "appsTotal": 200.0,
            "totalByNetwork": [{"network": "ethereum", "total": 12345.67}],
            "holdings": [{"label": "ETH", "balanceUSD": 10000.0, "pct": 0.81}]
        }
    }}}"#;
    let portfolio = interpret_response(provider_response).unwrap();
    let overview = overview_of(portfolio);
    let text = overview_json(&overview);
    let rep = portfolio_report(&text).unwrap();
    let lines = summary_lines(&rep);
    assert_eq!(lines[0], "Total Portfolio Value: $ 12.35K");
    assert_eq!(
        rep.holdings,
        vec![("ETH".to_string(), "$ 10.00K".to_string(), "81.00%".to_string())]
    );
    assert_eq!(rep.networks, vec![("ethereum".to_string(), "$ 12.35K".to_string())]);
}

#[test]
fn overview_serialization_round_trips_numbers() {
    let provider_response = r#"{"data": {"portfolio": {
        "appBalances": [], "tokenBalances": [], "nftBalances": [],
        "totals": {
            "total": 0.000001,
            "totalWithNFT": 9007199254.740993,
            "appsTotal": 1e3,
            "totalByNetwork": [],
            "holdings": []
        }
    }}}"#;
    let portfolio = interpret_response(provider_response).unwrap();
    assert_eq!(portfolio.totals.total, 1);
    assert_eq!(portfolio.totals.total_with_nft, 9_007_199_254_740_993);
    assert_eq!(portfolio.totals.apps_total, 1_000_000_000);
    let overview = overview_of(portfolio);
    let text = overview_json(&overview);
    let v: serde_json::Value = serde_json::from_str(&text).unwrap();
    assert_eq!(v["total_value"].as_f64().unwrap(), 0.000001);
    assert_eq!(v["apps_total"].as_f64().unwrap(), 1000.0);
    let again = interpret_response(&format!(
        r#"{{"data": {{"portfolio": {{"appBalances": [], "tokenBalances": [], "nftBalances": [],
            "totals": {{"total": {}, "totalWithNFT": {}, "appsTotal": {},
                "totalByNetwork": [], "holdings": []}}}}}}}}"#,
        v["total_value"], v["total_with_nft"], v["apps_total"]
    ))
    .unwrap();
    assert_eq!(again.totals.total, 1);
    assert_eq!(again.totals.apps_total, 1_000_000_000);
}

#[test]
fn escaped_labels_decode_to_their_characters() {
    let doc = "{\"holdings\": [
        {\"label\": \"\\u0045TH \\\"quoted\\\" \\ud83d\\ude00\", \"balanceUSD\": 1.0, \"pct\": 1.0}
    ]}";
    let rep = portfolio_report(doc).unwrap();
    assert_eq!(rep.holdings[0].0, "ETH \"quoted\" \u{1F600}");
}
