//! The provider client: authentication, request building, response
//! classification and decoding.

use portfolio_agent::zapper::client::{
    interpret_response, to_portfolio_error, ZapperClient, ZapperError, PORTFOLIO_QUERY,
};

const FULL_RESPONSE: &str = r#"{
  "data": {
    "portfolio": {
      "appBalances": [
        {"appName": "Lido", "balanceUSD": 150.5, "appId": "lido", "network": "ethereum"}
      ],
      "tokenBalances": [
        {
          "address": "0xabc",
          "network": "ethereum",
          "token": {
            "balanceUSD": 10000.0,
            "balance": 3.25,
            "baseToken": {
              "symbol": "ETH",
              "name": "Ether",
              "network": "ethereum",
              "imgUrl": "https://example.invalid/eth.png"
            }
          }
        }
      ],
      "nftBalances": [
        {"network": "ethereum", "balanceUSD": 654.33}
      ],
      "totals": {
        "total": 12345.67,
        "totalWithNFT": 13000.0,
        "appsTotal": 200.0,
        "totalByNetwork": [
          {"network": "ethereum", "total": 12345.67}
        ],
        "holdings": [
          {"label": "ETH", "balanceUSD": 10000.0, "pct": 0.81}
        ]
      }
    }
  }
}"#;

#[test]
fn auth_header_carries_the_encoded_key() {
    let client = ZapperClient::new("test");
    assert_eq!(client.auth_header(), "Basic dGVzdA==");
}

#[test]
fn request_body_holds_query_and_variables() {
    let client = ZapperClient::new("k");
    let body = client.request_body(
        &vec!["0xABC".to_string()],
        &Some(vec!["ethereum".to_string(), "base".to_string()]),
    );
    let v: serde_json::Value = serde_json::from_str(&body).unwrap();
    assert_eq!(v["query"].as_str().unwrap(), PORTFOLIO_QUERY);
    assert_eq!(v["variables"]["addresses"][0].as_str().unwrap(), "0xABC");
    assert_eq!(v["variables"]["networks"][1].as_str().unwrap(), "base");
}

#[test]
fn request_body_without_networks_sends_null() {
    let client = ZapperClient::new("k");
    let body = client.request_body(&vec!["addr".to_string()], &None);
    let v: serde_json::Value = serde_json::from_str(&body).unwrap();
    assert!(v["variables"]["networks"].is_null());
}

#[test]
fn camel_case_fields_decode_into_renamed_records() {
    let p = interpret_response(FULL_RESPONSE).unwrap();
    assert_eq!(p.app_balances.len(), 1);
    assert_eq!(p.app_balances[0].app_name, "Lido");
    assert_eq!(p.app_balances[0].balance_usd, 150_500_000);
    assert_eq!(p.app_balances[0].app_id, "lido");
    assert_eq!(p.token_balances[0].address, "0xabc");
    assert_eq!(p.token_balances[0].token.balance_usd, 10_000_000_000);
    assert_eq!(p.token_balances[0].token.balance, 3_250_000);
    assert_eq!(p.token_balances[0].token.base_token.symbol, "ETH");
    assert_eq!(p.token_balances[0].token.base_token.img_url, "https://example.invalid/eth.png");
    assert_eq!(p.nft_balances[0].balance_usd, 654_330_000);
    assert_eq!(p.totals.total, 12_345_670_000);
    assert_eq!(p.totals.total_with_nft, 13_000_000_000);
    assert_eq!(p.totals.apps_total, 200_000_000);
    assert_eq!(p.totals.total_by_network[0].network, "ethereum");
    assert_eq!(p.totals.total_by_network[0].total, 12_345_670_000);
    assert_eq!(p.totals.holdings[0].label, "ETH");
    assert_eq!(p.totals.holdings[0].balance_usd, 10_000_000_000);
    assert_eq!(p.totals.holdings[0].pct, 810_000);
}

#[test]
fn unknown_members_are_ignored() {
    let body = FULL_RESPONSE.replace(
        "\"total\": 12345.67,",
        "\"total\": 12345.67, \"surprise\": [1, {\"x\": null}],",
    );
    let p = interpret_response(&body).unwrap();
    assert_eq!(p.totals.total, 12_345_670_000);
}

#[test]
fn graphql_errors_are_reported_verbatim_and_data_is_not_parsed() {
    let body = r#"{"errors": [{"message": "boom"}], "data": {"portfolio": 17}}"#;
    match interpret_response(body) {
        Err(ZapperError::RemoteGraphQLError(m)) => {
            assert_eq!(m, r#"[{"message":"boom"}]"#);
        }
        other => panic!("expected a remote error, got {:?}", other.is_ok()),
    }
}

#[test]
fn missing_portfolio_is_classified() {
    match interpret_response(r#"{"data": {}}"#) {
        Err(ZapperError::MissingData) => {}
        _ => panic!("expected missing data"),
    }
    match interpret_response(r#"{}"#) {
        Err(ZapperError::MissingData) => {}
        _ => panic!("expected missing data"),
    }
    match interpret_response(r#"[1, 2]"#) {
        Err(ZapperError::MissingData) => {}
        _ => panic!("expected missing data"),
    }
}

#[test]
fn a_body_that_is_not_json_fails_the_request() {
    match interpret_response("<html>down for maintenance</html>") {
        Err(ZapperError::RequestFailed(m)) => {
            assert!(m.starts_with("JSON parsing failed"));
        }
        _ => panic!("expected a request failure"),
    }
}

#[test]
fn a_payload_off_schema_is_a_mismatch() {
    let body = r#"{"data": {"portfolio": {"appBalances": [], "tokenBalances": [],
        "nftBalances": [], "totals": {"total": "not a number", "totalWithNFT": 1.0,
        "appsTotal": 1.0, "totalByNetwork": [], "holdings": []}}}}"#;
    match interpret_response(body) {
        Err(ZapperError::SchemaMismatch(_)) => {}
        _ => panic!("expected a schema mismatch"),
    }
}

#[test]
fn error_wordings_match_their_classes() {
    let e = to_portfolio_error(ZapperError::RemoteGraphQLError("[]".to_string()));
    assert_eq!(e.0, "GraphQL errors: []");
    let e = to_portfolio_error(ZapperError::MissingData);
    assert_eq!(e.0, "Missing portfolio data in response");
    let e = to_portfolio_error(ZapperError::SchemaMismatch("detail".to_string()));
    assert_eq!(e.0, "Portfolio parsing failed: detail");
    let e = to_portfolio_error(ZapperError::RequestFailed("Request failed: timeout".to_string()));
    assert_eq!(e.0, "Request failed: timeout");
    assert_eq!(e.message(), "Portfolio error: Request failed: timeout");
}

#[test]
fn a_number_too_wide_to_interpret_is_a_mismatch() {
    let body = r#"{"data": {"portfolio": {"appBalances": [], "tokenBalances": [],
        "nftBalances": [], "totals": {"total": 99999999999999999999999999.0,
        "totalWithNFT": 1.0, "appsTotal": 1.0, "totalByNetwork": [], "holdings": []}}}}"#;
    match interpret_response(body) {
        Err(ZapperError::SchemaMismatch(_)) => {}
        _ => panic!("expected a schema mismatch"),
    }
}
