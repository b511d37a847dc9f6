//! The one capability the conversational layer can invoke: a
//! portfolio overview lookup for an address, with its declaration
//! (name, description, parameter schema) and the projection of a
//! fetched portfolio into the flattened overview record.

use vstd::prelude::*;
use crate::json::{
    Json, JsonV, jv_of_elems, jv_of_members, lemma_jv_of_elems_index, lemma_jv_of_members_index,
    sp_ser, json_to_string,
};
use crate::number::{sp_token_of_micros, token_of_micros};
use crate::types::{PortfolioArgs, PortfolioOverview};
use crate::zapper::client::{ZapperClient, base64_std_of, sp_request_json, sp_networks_view};
use crate::zapper::types::{
    Portfolio, Holding, NetworkTotal, rep_holdings, rep_network_totals,
};
use crate::strutil::str_to_chars;
use vstd::string::StringSliceAdditionalSpecFns;

verus! {

/// The capability around a provider client.
pub struct PortfolioOverviewTool {
    zapper: ZapperClient,
}

/// The name under which the capability is registered.
pub fn tool_name() -> (r: String)
    ensures
        r@ == "get_portfolio_overview"@,
{
    let mut s = String::new();
    s.append("get_portfolio_overview");
    proof {
        assert(s@ =~= "get_portfolio_overview"@);
    }
    s
}

/// The human-readable description in the capability declaration.
pub fn tool_description() -> (r: String)
    ensures
        r@
            == "Get a complete overview of a wallet's portfolio including tokens, apps, and NFTs across all supported networks"@,
{
    let mut s = String::new();
    s.append(
        "Get a complete overview of a wallet's portfolio including tokens, apps, and NFTs across all supported networks",
    );
    proof {
        assert(s@
            == "Get a complete overview of a wallet's portfolio including tokens, apps, and NFTs across all supported networks"@);
    }
    s
}

/// The declared parameter schema: an object with a required string
/// `address` and an optional string array `networks`.
pub open spec fn sp_tool_parameters() -> JsonV {
    JsonV::Obj(
        seq![
            ("type"@, JsonV::Str("object"@)),
            (
                "properties"@,
                JsonV::Obj(
                    seq![
                        (
                            "address"@,
                            JsonV::Obj(
                                seq![
                                    ("type"@, JsonV::Str("string"@)),
                                    (
                                        "description"@,
                                        JsonV::Str(
                                            "The wallet address to analyze (supports both EVM and Solana addresses)"@,
                                        ),
                                    ),
                                ],
                            ),
                        ),
                        (
                            "networks"@,
                            JsonV::Obj(
                                seq![
                                    ("type"@, JsonV::Str("array"@)),
                                    (
                                        "items"@,
                                        JsonV::Obj(seq![("type"@, JsonV::Str("string"@))]),
                                    ),
                                    (
                                        "description"@,
                                        JsonV::Str(
                                            "Optional: Specific networks to analyze. If not provided, all networks will be queried."@,
                                        ),
                                    ),
                                ],
                            ),
                        ),
                    ],
                ),
            ),
            ("required"@, JsonV::Arr(seq![JsonV::Str("address"@)])),
        ],
    )
}

fn str_member(key: &str, value: &str) -> (r: (Vec<char>, Json))
    ensures
        r.0@ == key@,
        r.1.jv() == JsonV::Str(value@),
{
    (str_to_chars(key), Json::Str(str_to_chars(value)))
}

/// The serialized parameter schema of the capability declaration.
pub fn tool_parameters_json() -> (r: String)
    ensures
        r@ == sp_ser(sp_tool_parameters()),
{
    let mut addr: Vec<(Vec<char>, Json)> = Vec::new();
    addr.push(str_member("type", "string"));
    addr.push(str_member(
        "description",
        "The wallet address to analyze (supports both EVM and Solana addresses)",
    ));
    let mut items: Vec<(Vec<char>, Json)> = Vec::new();
    items.push(str_member("type", "string"));
    let mut nets: Vec<(Vec<char>, Json)> = Vec::new();
    nets.push(str_member("type", "array"));
    nets.push((str_to_chars("items"), Json::Obj(items)));
    nets.push(str_member(
        "description",
        "Optional: Specific networks to analyze. If not provided, all networks will be queried.",
    ));
    let mut props: Vec<(Vec<char>, Json)> = Vec::new();
    props.push((str_to_chars("address"), Json::Obj(addr)));
    props.push((str_to_chars("networks"), Json::Obj(nets)));
    let mut req: Vec<Json> = Vec::new();
    req.push(Json::Str(str_to_chars("address")));
    let mut doc: Vec<(Vec<char>, Json)> = Vec::new();
    doc.push(str_member("type", "object"));
    doc.push((str_to_chars("properties"), Json::Obj(props)));
    doc.push((str_to_chars("required"), Json::Arr(req)));
    let body = Json::Obj(doc);
    proof {
        let sv = sp_tool_parameters();
        lemma_jv_of_members_index(doc@);
        lemma_jv_of_members_index(props@);
        lemma_jv_of_members_index(addr@);
        lemma_jv_of_members_index(items@);
        lemma_jv_of_members_index(nets@);
        lemma_jv_of_elems_index(req@);
        assert(jv_of_members(addr@) =~~= sv->Obj_0[1].1->Obj_0[0].1->Obj_0);
        assert(jv_of_members(items@) =~~= sv->Obj_0[1].1->Obj_0[1].1->Obj_0[1].1->Obj_0);
        assert(jv_of_members(nets@) =~~= sv->Obj_0[1].1->Obj_0[1].1->Obj_0);
        assert(jv_of_members(props@) =~~= sv->Obj_0[1].1->Obj_0);
        assert(jv_of_elems(req@) =~~= sv->Obj_0[2].1->Arr_0);
        assert(jv_of_members(doc@) =~~= sv->Obj_0);
        assert(body.jv() =~~= sv);
    }
    json_to_string(&body)
}

impl PortfolioOverviewTool {
    /// The encoded credential held by the wrapped client.
    pub closed spec fn key_view(&self) -> Seq<char> {
        self.zapper.key_view()
    }

    /// Builds the capability around a fresh provider client.
    pub fn new(api_key: &str) -> (r: PortfolioOverviewTool)
        requires
            api_key.spec_bytes().len() < 0x1000000000000000,
        ensures
            r.key_view() == base64_std_of(api_key.spec_bytes()),
    {
        PortfolioOverviewTool { zapper: ZapperClient::new(api_key) }
    }

    /// The authorization header for the wrapped client.
    pub fn auth_header(&self) -> (r: String)
        ensures
            r@ == "Basic "@ + self.key_view(),
    {
        self.zapper.auth_header()
    }

    /// The request body for one call: the single address wrapped into
    /// a one-element list, the optional networks passed through.
    pub fn request_body_for(&self, args: &PortfolioArgs) -> (r: String)
        ensures
            r@ == sp_ser(sp_request_json(
                seq![args.address@],
                sp_networks_view(args.networks),
            )),
    {
        let mut addresses: Vec<String> = Vec::new();
        addresses.push(self.clone_address(args));
        proof {
            assert(addresses.deep_view() =~= seq![args.address@]);
        }
        self.zapper.request_body(&addresses, &args.networks)
    }

    fn clone_address(&self, args: &PortfolioArgs) -> (r: String)
        ensures
            r@ == args.address@,
    {
        let mut s = String::new();
        s.append(args.address.as_str());
        proof {
            assert(s@ =~= args.address@);
        }
        s
    }
}

/// Projects a fetched portfolio into the flattened overview record,
/// dropping the app, token and NFT line items.
pub fn overview_of(p: Portfolio) -> (r: PortfolioOverview)
    ensures
        r.total_value == p.totals.total,
        r.total_with_nft == p.totals.total_with_nft,
        r.apps_total == p.totals.apps_total,
        r.holdings == p.totals.holdings,
        r.network_breakdown == p.totals.total_by_network,
{
    PortfolioOverview {
        total_value: p.totals.total,
        total_with_nft: p.totals.total_with_nft,
        apps_total: p.totals.apps_total,
        holdings: p.totals.holdings,
        network_breakdown: p.totals.total_by_network,
    }
}

// ---------- the overview as JSON, for the conversational layer ----------

pub open spec fn sp_holding_json(h: (Seq<char>, int, int)) -> JsonV {
    JsonV::Obj(
        seq![
            ("label"@, JsonV::Str(h.0)),
            ("balanceUSD"@, JsonV::Num(sp_token_of_micros(h.1))),
            ("pct"@, JsonV::Num(sp_token_of_micros(h.2))),
        ],
    )
}

pub open spec fn sp_network_json(h: (Seq<char>, int)) -> JsonV {
    JsonV::Obj(
        seq![
            ("network"@, JsonV::Str(h.0)),
            ("total"@, JsonV::Num(sp_token_of_micros(h.1))),
        ],
    )
}

/// The overview record as the JSON document handed to the
/// conversational layer: the three totals, the holdings with their
/// provider-style `balanceUSD` key, and the network breakdown.
pub open spec fn sp_overview_json(o: PortfolioOverview) -> JsonV {
    JsonV::Obj(
        seq![
            ("total_value"@, JsonV::Num(sp_token_of_micros(o.total_value as int))),
            ("total_with_nft"@, JsonV::Num(sp_token_of_micros(o.total_with_nft as int))),
            ("apps_total"@, JsonV::Num(sp_token_of_micros(o.apps_total as int))),
            (
                "holdings"@,
                JsonV::Arr(
                    Seq::new(
                        o.holdings@.len(),
                        |i: int| sp_holding_json(rep_holdings(o.holdings@)[i]),
                    ),
                ),
            ),
            (
                "network_breakdown"@,
                JsonV::Arr(
                    Seq::new(
                        o.network_breakdown@.len(),
                        |i: int| sp_network_json(rep_network_totals(o.network_breakdown@)[i]),
                    ),
                ),
            ),
        ],
    )
}

fn holding_json(h: &Holding) -> (r: Json)
    ensures
        r.jv() == sp_holding_json((h.label@, h.balance_usd as int, h.pct as int)),
{
    let mut m: Vec<(Vec<char>, Json)> = Vec::new();
    m.push((str_to_chars("label"), Json::Str(str_to_chars(h.label.as_str()))));
    m.push((str_to_chars("balanceUSD"), Json::Num(token_of_micros(h.balance_usd))));
    m.push((str_to_chars("pct"), Json::Num(token_of_micros(h.pct))));
    let r = Json::Obj(m);
    proof {
        lemma_jv_of_members_index(m@);
        assert(jv_of_members(m@) =~~= sp_holding_json(
            (h.label@, h.balance_usd as int, h.pct as int),
        )->Obj_0);
        assert(r.jv() =~~= sp_holding_json((h.label@, h.balance_usd as int, h.pct as int)));
    }
    r
}

fn network_json(h: &NetworkTotal) -> (r: Json)
    ensures
        r.jv() == sp_network_json((h.network@, h.total as int)),
{
    let mut m: Vec<(Vec<char>, Json)> = Vec::new();
    m.push((str_to_chars("network"), Json::Str(str_to_chars(h.network.as_str()))));
    m.push((str_to_chars("total"), Json::Num(token_of_micros(h.total))));
    let r = Json::Obj(m);
    proof {
        lemma_jv_of_members_index(m@);
        assert(jv_of_members(m@) =~~= sp_network_json((h.network@, h.total as int))->Obj_0);
        assert(r.jv() =~~= sp_network_json((h.network@, h.total as int)));
    }
    r
}

/// Serializes an overview record for the conversational layer.
#[verifier::rlimit(100)]
pub fn overview_json(o: &PortfolioOverview) -> (r: String)
    ensures
        r@ == sp_ser(sp_overview_json(*o)),
{
    let mut hds: Vec<Json> = Vec::new();
    let mut i: usize = 0;
    while i < o.holdings.len()
        invariant
            i <= o.holdings@.len(),
            jv_of_elems(hds@) =~= Seq::new(
                i as nat,
                |k: int| sp_holding_json(rep_holdings(o.holdings@)[k]),
            ),
        decreases o.holdings@.len() - i,
    {
        let ghost before = hds@;
        hds.push(holding_json(&o.holdings[i]));
        proof {
            lemma_jv_of_elems_index(hds@);
            lemma_jv_of_elems_index(before);
            let target = Seq::new(
                (i + 1) as nat,
                |k: int| sp_holding_json(rep_holdings(o.holdings@)[k]),
            );
            assert forall|k: int| 0 <= k < target.len() implies jv_of_elems(hds@)[k]
                == target[k] by {
                if k < i as int {
                    assert(jv_of_elems(before)[k] == Seq::new(
                        i as nat,
                        |k2: int| sp_holding_json(rep_holdings(o.holdings@)[k2]),
                    )[k]);
                }
            }
            assert(jv_of_elems(hds@) =~= target);
        }
        i += 1;
    }
    let mut nws: Vec<Json> = Vec::new();
    let mut i: usize = 0;
    while i < o.network_breakdown.len()
        invariant
            i <= o.network_breakdown@.len(),
            jv_of_elems(nws@) =~= Seq::new(
                i as nat,
                |k: int| sp_network_json(rep_network_totals(o.network_breakdown@)[k]),
            ),
        decreases o.network_breakdown@.len() - i,
    {
        let ghost before = nws@;
        nws.push(network_json(&o.network_breakdown[i]));
        proof {
            lemma_jv_of_elems_index(nws@);
            lemma_jv_of_elems_index(before);
            let target = Seq::new(
                (i + 1) as nat,
                |k: int| sp_network_json(rep_network_totals(o.network_breakdown@)[k]),
            );
            assert forall|k: int| 0 <= k < target.len() implies jv_of_elems(nws@)[k]
                == target[k] by {
                if k < i as int {
                    assert(jv_of_elems(before)[k] == Seq::new(
                        i as nat,
                        |k2: int| sp_network_json(rep_network_totals(o.network_breakdown@)[k2]),
                    )[k]);
                }
            }
            assert(jv_of_elems(nws@) =~= target);
        }
        i += 1;
    }
    let mut doc: Vec<(Vec<char>, Json)> = Vec::new();
    doc.push((str_to_chars("total_value"), Json::Num(token_of_micros(o.total_value))));
    doc.push((str_to_chars("total_with_nft"), Json::Num(token_of_micros(o.total_with_nft))));
    doc.push((str_to_chars("apps_total"), Json::Num(token_of_micros(o.apps_total))));
    doc.push((str_to_chars("holdings"), Json::Arr(hds)));
    doc.push((str_to_chars("network_breakdown"), Json::Arr(nws)));
    let body = Json::Obj(doc);
    proof {
        let sv = sp_overview_json(*o);
        lemma_jv_of_members_index(doc@);
        assert(jv_of_members(doc@) =~~= sv->Obj_0);
        assert(body.jv() =~~= sv);
    }
    json_to_string(&body)
}

} // verus!