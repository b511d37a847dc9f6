//! The capability declaration and the request it builds.

use portfolio_agent::tools::portfolio::{
    tool_description, tool_name, tool_parameters_json, PortfolioOverviewTool,
};
use portfolio_agent::types::PortfolioArgs;
use portfolio_agent::zapper::client::PORTFOLIO_QUERY;

#[test]
fn the_capability_name_is_stable() {
    assert_eq!(tool_name(), "get_portfolio_overview");
    assert!(tool_description().starts_with("Get a complete overview"));
}

#[test]
fn the_parameter_schema_declares_address_and_networks() {
    let v: serde_json::Value = serde_json::from_str(&tool_parameters_json()).unwrap();
    assert_eq!(v["type"].as_str().unwrap(), "object");
    assert_eq!(v["properties"]["address"]["type"].as_str().unwrap(), "string");
    assert_eq!(v["properties"]["networks"]["type"].as_str().unwrap(), "array");
    assert_eq!(v["properties"]["networks"]["items"]["type"].as_str().unwrap(), "string");
    assert_eq!(v["required"][0].as_str().unwrap(), "address");
}

#[test]
fn the_tool_encodes_its_key_once() {
    let tool = PortfolioOverviewTool::new("abc");
    assert_eq!(tool.auth_header(), "Basic YWJj");
}

#[test]
fn the_call_wraps_one_address_into_a_list() {
    let tool = PortfolioOverviewTool::new("k");
    let args = PortfolioArgs { address: "0xABC".to_string(), networks: None };
    let body = tool.request_body_for(&args);
    let v: serde_json::Value = serde_json::from_str(&body).unwrap();
    let addrs = v["variables"]["addresses"].as_array().unwrap();
    assert_eq!(addrs.len(), 1);
    assert_eq!(addrs[0].as_str().unwrap(), "0xABC");
    assert!(v["variables"]["networks"].is_null());
    assert_eq!(v["query"].as_str().unwrap(), PORTFOLIO_QUERY);
}
