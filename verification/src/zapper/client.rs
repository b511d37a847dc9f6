//! The data provider client: the fixed query, the request body, the
//! authentication header, and the classification of responses.
//!
//! The one network call itself is not made here: the surrounding
//! program sends `request_body` to the provider with `auth_header`
//! attached and hands the response text to `interpret_response`.

use vstd::prelude::*;
use base64::Engine;
use crate::json::{
    Json, JsonV, jv_get, jv_of_elems, jv_of_members, lemma_jv_of_elems_index,
    lemma_jv_of_members_index, sp_parse_json, sp_ser, parse_json, json_to_string, get_member,
};
use crate::zapper::types::{Portfolio, sp_portfolio, rep_portfolio, decode_portfolio};
use crate::types::PortfolioError;
use crate::strutil::str_to_chars;
use vstd::string::StringSliceAdditionalSpecFns;

verus! {

/// What the standard alphabet writes for a byte sequence, with
/// padding.
pub uninterp spec fn base64_std_of(bytes: Seq<u8>) -> Seq<char>;

/// Relies on `base64`'s `Engine::encode` with the `STANDARD` engine:
/// the result is a function of the input bytes alone.
#[verifier::external_body]
fn b64_std_encode(bytes: &[u8]) -> (r: String)
    requires
        bytes@.len() < 0x1000000000000000,
    ensures
        r@ == base64_std_of(bytes@),
{
    base64::engine::general_purpose::STANDARD.encode(bytes)
}

/// The classified outcomes of one provider call.
#[derive(Debug)]
pub enum ZapperError {
    /// The call itself failed, or the body was not JSON.
    RequestFailed(String),
    /// The provider executed the query and reported errors; the
    /// serialized error payload is carried verbatim.
    RemoteGraphQLError(String),
    /// A well-formed response without the portfolio data.
    MissingData,
    /// The portfolio payload did not match the expected schema.
    SchemaMismatch(String),
}

/// Surfaces a classified error to the conversational layer with the
/// original wording preserved.
pub fn to_portfolio_error(e: ZapperError) -> (r: PortfolioError)
    ensures
        ({
            match e {
                ZapperError::RequestFailed(m) => r.0@ == m@,
                ZapperError::RemoteGraphQLError(m) => r.0@ == "GraphQL errors: "@ + m@,
                ZapperError::MissingData => r.0@ == "Missing portfolio data in response"@,
                ZapperError::SchemaMismatch(m) => r.0@ == "Portfolio parsing failed: "@ + m@,
            }
        }),
{
    match e {
        ZapperError::RequestFailed(m) => PortfolioError(m),
        ZapperError::RemoteGraphQLError(m) => {
            let mut s = String::new();
            s.append("GraphQL errors: ");
            s.append(m.as_str());
            proof {
                assert(s@ =~= "GraphQL errors: "@ + m@);
            }
            PortfolioError(s)
        },
        ZapperError::MissingData => {
            let mut s = String::new();
            s.append("Missing portfolio data in response");
            proof {
                assert(s@ =~= "Missing portfolio data in response"@);
            }
            PortfolioError(s)
        },
        ZapperError::SchemaMismatch(m) => {
            let mut s = String::new();
            s.append("Portfolio parsing failed: ");
            s.append(m.as_str());
            proof {
                assert(s@ =~= "Portfolio parsing failed: "@ + m@);
            }
            PortfolioError(s)
        },
    }
}

/// The fixed query sent on every call.
pub const PORTFOLIO_QUERY: &'static str = r#"
            query GetCompletePortfolio($addresses: [Address!]!, $networks: [Network!]) {
                portfolio(addresses: $addresses, networks: $networks) {
                    appBalances {
                        appName
                        balanceUSD
                        appId
                        network
                        products {
                            label
                            assets {
                                address
                            }
                        }
                    }
                    tokenBalances {
                        address
                        network
                        token {
                            balanceUSD
                            balance
                            baseToken {
                                symbol
                                name
                                network
                                imgUrl
                            }
                        }
                    }
                    nftBalances {
                        network
                        balanceUSD
                    }
                    totals {
                        total
                        totalWithNFT
                        appsTotal
                        totalByNetwork {
                            network
                            total
                        }
                        holdings {
                            label
                            balanceUSD
                            pct
                        }
                    }
                }
            }
        "#;

/// String values for a sequence of texts.
pub open spec fn sp_str_values(xs: Seq<Seq<char>>) -> Seq<JsonV> {
    Seq::new(xs.len(), |i: int| JsonV::Str(xs[i]))
}

/// The request document: the fixed query and a variables object with
/// the addresses and the optional network list (absent means null).
pub open spec fn sp_request_json(addrs: Seq<Seq<char>>, networks: Option<Seq<Seq<char>>>)
    -> JsonV {
    JsonV::Obj(
        seq![
            ("query"@, JsonV::Str(PORTFOLIO_QUERY@)),
            (
                "variables"@,
                JsonV::Obj(
                    seq![
                        ("addresses"@, JsonV::Arr(sp_str_values(addrs))),
                        (
                            "networks"@,
                            match networks {
                                None => JsonV::Null,
                                Some(ns) => JsonV::Arr(sp_str_values(ns)),
                            },
                        ),
                    ],
                ),
            ),
        ],
    )
}

pub open spec fn sp_networks_view(networks: Option<Vec<String>>) -> Option<Seq<Seq<char>>> {
    match networks {
        None => None,
        Some(ns) => Some(ns.deep_view()),
    }
}

/// The client: holds the provider credential, already encoded for the
/// basic authentication header.
pub struct ZapperClient {
    api_key: String,
}

impl ZapperClient {
    /// The stored, encoded credential.
    pub closed spec fn key_view(&self) -> Seq<char> {
        self.api_key@
    }

    /// Builds a client; the key is kept encoded for reuse on every
    /// call.
    pub fn new(api_key: &str) -> (r: ZapperClient)
        requires
            api_key.spec_bytes().len() < 0x1000000000000000,
        ensures
            r.key_view() == base64_std_of(api_key.spec_bytes()),
    {
        let encoded_key = b64_std_encode(api_key.as_bytes());
        ZapperClient { api_key: encoded_key }
    }

    /// The value of the authorization header sent with every call.
    pub fn auth_header(&self) -> (r: String)
        ensures
            r@ == "Basic "@ + self.key_view(),
    {
        let mut s = String::new();
        s.append("Basic ");
        s.append(self.api_key.as_str());
        proof {
            assert(s@ =~= "Basic "@ + self.api_key@);
        }
        s
    }

    /// The serialized request body for a lookup of `addresses`,
    /// optionally restricted to `networks`.
    pub fn request_body(&self, addresses: &Vec<String>, networks: &Option<Vec<String>>) -> (r:
        String)
        ensures
            r@ == sp_ser(sp_request_json(addresses.deep_view(), sp_networks_view(*networks))),
    {
        let mut addr_vals: Vec<Json> = Vec::new();
        let mut i: usize = 0;
        while i < addresses.len()
            invariant
                i <= addresses@.len(),
                jv_of_elems(addr_vals@) =~= sp_str_values(addresses.deep_view()).subrange(
                    0,
                    i as int,
                ),
            decreases addresses@.len() - i,
        {
            let ghost before = addr_vals@;
            addr_vals.push(Json::Str(str_to_chars(addresses[i].as_str())));
            proof {
                lemma_jv_of_elems_index(addr_vals@);
                lemma_jv_of_elems_index(before);
                assert(jv_of_elems(addr_vals@) =~= sp_str_values(
                    addresses.deep_view(),
                ).subrange(0, i + 1 as int));
            }
            i += 1;
        }
        proof {
            assert(sp_str_values(addresses.deep_view()).subrange(
                0,
                addresses.deep_view().len() as int,
            ) =~= sp_str_values(addresses.deep_view()));
        }
        let ghost net_spec: JsonV = match sp_networks_view(*networks) {
            None => JsonV::Null,
            Some(nsv) => JsonV::Arr(sp_str_values(nsv)),
        };
        let networks_val: Json = match networks {
            None => Json::Null,
            Some(ns) => {
                let mut net_vals: Vec<Json> = Vec::new();
                let mut i: usize = 0;
                while i < ns.len()
                    invariant
                        i <= ns@.len(),
                        jv_of_elems(net_vals@) =~= sp_str_values(ns.deep_view()).subrange(
                            0,
                            i as int,
                        ),
                    decreases ns@.len() - i,
                {
                    let ghost before = net_vals@;
                    net_vals.push(Json::Str(str_to_chars(ns[i].as_str())));
                    proof {
                        lemma_jv_of_elems_index(net_vals@);
                        lemma_jv_of_elems_index(before);
                        assert(jv_of_elems(net_vals@) =~= sp_str_values(ns.deep_view()).subrange(
                            0,
                            i + 1 as int,
                        ));
                    }
                    i += 1;
                }
                proof {
                    assert(sp_str_values(ns.deep_view()).subrange(
                        0,
                        ns.deep_view().len() as int,
                    ) =~= sp_str_values(ns.deep_view()));
                }
                let arr = Json::Arr(net_vals);
                proof {
                    assert(arr.jv() =~~= net_spec);
                }
                arr
            },
        };
        let mut vars: Vec<(Vec<char>, Json)> = Vec::new();
        vars.push((str_to_chars("addresses"), Json::Arr(addr_vals)));
        vars.push((str_to_chars("networks"), networks_val));
        let mut doc: Vec<(Vec<char>, Json)> = Vec::new();
        doc.push((str_to_chars("query"), Json::Str(str_to_chars(PORTFOLIO_QUERY))));
        doc.push((str_to_chars("variables"), Json::Obj(vars)));
        let body = Json::Obj(doc);
        proof {
            lemma_jv_of_members_index(doc@);
            lemma_jv_of_members_index(vars@);
            let sv = sp_request_json(addresses.deep_view(), sp_networks_view(*networks));
            assert(networks_val.jv() == net_spec);
            assert(jv_of_elems(addr_vals@) =~= sp_str_values(addresses.deep_view()));
            assert(jv_of_members(vars@) =~~= seq![
                ("addresses"@, JsonV::Arr(sp_str_values(addresses.deep_view()))),
                ("networks"@, net_spec),
            ]);
            assert(jv_of_members(doc@) =~~= seq![
                ("query"@, JsonV::Str(PORTFOLIO_QUERY@)),
                ("variables"@, JsonV::Obj(jv_of_members(vars@))),
            ]);
            assert(body.jv() == JsonV::Obj(jv_of_members(doc@)));
            assert(sv matches JsonV::Obj(ms2) && ms2.len() == 2);
            assert(sv->Obj_0[1].1 matches JsonV::Obj(vs2) && vs2.len() == 2);
            assert(sv->Obj_0[1].1->Obj_0 =~~= jv_of_members(vars@));
            assert(sv->Obj_0[1].1 =~~= JsonV::Obj(jv_of_members(vars@)));
            assert(sv->Obj_0 =~~= jv_of_members(doc@));
            assert(body.jv() =~~= sv);
        }
        json_to_string(&body)
    }
}

/// Where the portfolio payload sits in a response document.
pub open spec fn sp_data_portfolio(v: JsonV) -> Option<JsonV> {
    match jv_get(v, "data"@) {
        None => None,
        Some(d) => jv_get(d, "portfolio"@),
    }
}

/// Classifies and decodes one response body:
/// a body that is not JSON fails the request; a document carrying a
/// top-level `errors` member is a remote error, its payload kept
/// verbatim, whatever else the document holds; a document without
/// `data.portfolio` lacks its data; and the payload either matches
/// the schema and decodes, or is a mismatch.
pub fn interpret_response(body: &str) -> (r: Result<Portfolio, ZapperError>)
    ensures
        ({
            let doc = sp_parse_json(body@);
            match doc {
                None => r matches Err(ZapperError::RequestFailed(m))
                    && m@ == "JSON parsing failed: the response body is not JSON"@,
                Some(v) => match jv_get(v, "errors"@) {
                    Some(e) => r matches Err(ZapperError::RemoteGraphQLError(m)) && m@ == sp_ser(
                        e,
                    ),
                    None => match sp_data_portfolio(v) {
                        None => r matches Err(ZapperError::MissingData),
                        Some(pv) => match sp_portfolio(pv) {
                            Some(rep) => r matches Ok(p) && rep_portfolio(p) == rep,
                            None => r matches Err(ZapperError::SchemaMismatch(m)) && m@
                                == "the payload does not have the portfolio shape"@,
                        },
                    },
                },
            }
        }),
{
    let chars = str_to_chars(body);
    let doc = match parse_json(&chars) {
        Some(d) => d,
        None => {
            let mut s = String::new();
            s.append("JSON parsing failed: the response body is not JSON");
            proof {
                assert(s@ =~= "JSON parsing failed: the response body is not JSON"@);
            }
            return Err(ZapperError::RequestFailed(s));
        },
    };
    if let Some(errs) = get_member(&doc, "errors") {
        return Err(ZapperError::RemoteGraphQLError(json_to_string(errs)));
    }
    let data = match get_member(&doc, "data") {
        Some(d) => d,
        None => { return Err(ZapperError::MissingData); },
    };
    let pv = match get_member(data, "portfolio") {
        Some(p) => p,
        None => { return Err(ZapperError::MissingData); },
    };
    match decode_portfolio(pv) {
        Ok(p) => Ok(p),
        Err(_) => {
            let mut s = String::new();
            s.append("the payload does not have the portfolio shape");
            proof {
                assert(s@ =~= "the payload does not have the portfolio shape"@);
            }
            Err(ZapperError::SchemaMismatch(s))
        },
    }
}

} // verus!
