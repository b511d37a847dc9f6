//! Rendering an overview document as table rows and summary lines.
//!
//! The input is the JSON text handed back by the conversational
//! layer.  Missing or non-numeric amounts display as zero; a network
//! entry is shown only when its total is strictly positive, in the
//! held order.

use vstd::prelude::*;
use crate::json::{
    Json, JsonV, jv_get, jv_of_elems, lemma_jv_of_elems_index, sp_parse_json, parse_json,
    get_member,
};
use crate::money::{spec_format_usd, spec_format_pct, format_usd, format_pct};
use crate::number::{sp_micros, micros_of_token};
use crate::strutil::{str_to_chars, chars_to_string};

verus! {

/// A rendered report: the three summary amounts and the two tables'
/// rows, every cell already formatted.
pub struct PortfolioReport {
    pub total_value: String,
    pub total_with_nft: String,
    pub apps_total: String,
    pub holdings: Vec<(String, String, String)>,
    pub networks: Vec<(String, String)>,
}

/// The amount under `key`, in micro-units, zero when absent, not a
/// number, or out of range.
pub open spec fn sp_num_or_zero(v: JsonV, key: Seq<char>) -> int {
    match jv_get(v, key) {
        Some(JsonV::Num(l)) => match sp_micros(l) {
            Some(m) => m,
            None => 0,
        },
        _ => 0,
    }
}

/// The text under `key`, empty when absent or not a string.
pub open spec fn sp_str_or_empty(v: JsonV, key: Seq<char>) -> Seq<char> {
    match jv_get(v, key) {
        Some(JsonV::Str(t)) => t,
        _ => Seq::empty(),
    }
}

/// One holdings row: label, formatted balance, formatted percentage.
pub open spec fn sp_holding_row(e: JsonV) -> (Seq<char>, Seq<char>, Seq<char>) {
    (
        sp_str_or_empty(e, "label"@),
        spec_format_usd(sp_num_or_zero(e, "balanceUSD"@)),
        spec_format_pct(sp_num_or_zero(e, "pct"@)),
    )
}

pub open spec fn sp_holding_rows(es: Seq<JsonV>, k: int) -> Seq<(Seq<char>, Seq<char>, Seq<char>)>
    decreases es.len() - k when 0 <= k <= es.len()
{
    if k >= es.len() {
        Seq::empty()
    } else {
        seq![sp_holding_row(es[k])] + sp_holding_rows(es, k + 1)
    }
}

/// The network rows: only entries with a strictly positive total are
/// kept, in their held order.
pub open spec fn sp_network_rows(es: Seq<JsonV>, k: int) -> Seq<(Seq<char>, Seq<char>)>
    decreases es.len() - k when 0 <= k <= es.len()
{
    if k >= es.len() {
        Seq::empty()
    } else if sp_num_or_zero(es[k], "total"@) > 0 {
        seq![
            (
                sp_str_or_empty(es[k], "network"@),
                spec_format_usd(sp_num_or_zero(es[k], "total"@)),
            ),
        ] + sp_network_rows(es, k + 1)
    } else {
        sp_network_rows(es, k + 1)
    }
}

/// The rows an overview document yields for each table; a missing or
/// non-array member yields no rows.
pub open spec fn sp_doc_holding_rows(v: JsonV) -> Seq<(Seq<char>, Seq<char>, Seq<char>)> {
    match jv_get(v, "holdings"@) {
        Some(JsonV::Arr(es)) => sp_holding_rows(es, 0),
        _ => Seq::empty(),
    }
}

pub open spec fn sp_doc_network_rows(v: JsonV) -> Seq<(Seq<char>, Seq<char>)> {
    match jv_get(v, "network_breakdown"@) {
        Some(JsonV::Arr(es)) => sp_network_rows(es, 0),
        _ => Seq::empty(),
    }
}

pub open spec fn rep_rows3(hs: Seq<(String, String, String)>) -> Seq<(Seq<char>, Seq<char>, Seq<char>)> {
    Seq::new(hs.len(), |i: int| (hs[i].0@, hs[i].1@, hs[i].2@))
}

pub open spec fn rep_rows2(hs: Seq<(String, String)>) -> Seq<(Seq<char>, Seq<char>)> {
    Seq::new(hs.len(), |i: int| (hs[i].0@, hs[i].1@))
}

fn num_or_zero(v: &Json, key: &str) -> (r: i64)
    ensures
        r as int == sp_num_or_zero(v.jv(), key@),
{
    match get_member(v, key) {
        Some(w) => match w {
            Json::Num(l) => match micros_of_token(l) {
                Some(m) => m,
                None => 0,
            },
            _ => 0,
        },
        None => 0,
    }
}

fn str_or_empty(v: &Json, key: &str) -> (r: String)
    ensures
        r@ == sp_str_or_empty(v.jv(), key@),
{
    match get_member(v, key) {
        Some(w) => match w {
            Json::Str(t) => chars_to_string(t),
            _ => {
                let s = String::new();
                s
            },
        },
        None => String::new(),
    }
}

fn holding_rows(es: &Vec<Json>, k: usize) -> (r: Vec<(String, String, String)>)
    requires
        k <= es@.len(),
    ensures
        rep_rows3(r@) == sp_holding_rows(jv_of_elems(es@), k as int),
    decreases es@.len() - k,
{
    proof {
        lemma_jv_of_elems_index(es@);
    }
    if k >= es.len() {
        let r: Vec<(String, String, String)> = Vec::new();
        proof {
            assert(rep_rows3(r@) =~= Seq::<(Seq<char>, Seq<char>, Seq<char>)>::empty());
        }
        return r;
    }
    let e = &es[k];
    let row = (str_or_empty(e, "label"), format_usd(num_or_zero(e, "balanceUSD")), format_pct(
        num_or_zero(e, "pct"),
    ));
    let mut rest = holding_rows(es, k + 1);
    let ghost tail = rest@;
    rest.insert(0, row);
    proof {
        assert(rep_rows3(rest@) =~= seq![sp_holding_row(jv_of_elems(es@)[k as int])]
            + rep_rows3(tail));
    }
    rest
}

fn network_rows(es: &Vec<Json>, k: usize) -> (r: Vec<(String, String)>)
    requires
        k <= es@.len(),
    ensures
        rep_rows2(r@) == sp_network_rows(jv_of_elems(es@), k as int),
    decreases es@.len() - k,
{
    proof {
        lemma_jv_of_elems_index(es@);
    }
    if k >= es.len() {
        let r: Vec<(String, String)> = Vec::new();
        proof {
            assert(rep_rows2(r@) =~= Seq::<(Seq<char>, Seq<char>)>::empty());
        }
        return r;
    }
    let e = &es[k];
    let total = num_or_zero(e, "total");
    if total > 0 {
        let row = (str_or_empty(e, "network"), format_usd(total));
        let mut rest = network_rows(es, k + 1);
        let ghost tail = rest@;
        rest.insert(0, row);
        proof {
            assert(rep_rows2(rest@) =~= seq![
                (
                    sp_str_or_empty(jv_of_elems(es@)[k as int], "network"@),
                    spec_format_usd(sp_num_or_zero(jv_of_elems(es@)[k as int], "total"@)),
                ),
            ] + rep_rows2(tail));
        }
        rest
    } else {
        network_rows(es, k + 1)
    }
}

/// Renders an overview document: `None` exactly when the text is not
/// JSON; otherwise the three summary amounts are formatted (absent
/// ones as zero) and the two tables' rows are built, the network
/// table keeping only strictly positive totals in their held order.
pub fn portfolio_report(response: &str) -> (r: Option<PortfolioReport>)
    ensures
        match r {
            None => sp_parse_json(response@) is None,
            Some(rep) => sp_parse_json(response@) matches Some(v) && ({
                &&& rep.total_value@ == spec_format_usd(sp_num_or_zero(v, "total_value"@))
                &&& rep.total_with_nft@ == spec_format_usd(sp_num_or_zero(v, "total_with_nft"@))
                &&& rep.apps_total@ == spec_format_usd(sp_num_or_zero(v, "apps_total"@))
                &&& rep_rows3(rep.holdings@) == sp_doc_holding_rows(v)
                &&& rep_rows2(rep.networks@) == sp_doc_network_rows(v)
            }),
        },
{
    let chars = str_to_chars(response);
    let doc = match parse_json(&chars) {
        Some(d) => d,
        None => { return None; },
    };
    let total_value = format_usd(num_or_zero(&doc, "total_value"));
    let total_with_nft = format_usd(num_or_zero(&doc, "total_with_nft"));
    let apps_total = format_usd(num_or_zero(&doc, "apps_total"));
    let holdings = match get_member(&doc, "holdings") {
        Some(w) => match w {
            Json::Arr(es) => holding_rows(es, 0),
            _ => Vec::new(),
        },
        None => Vec::new(),
    };
    proof {
        if rep_rows3(holdings@) != sp_doc_holding_rows(doc.jv()) {
            assert(rep_rows3(Seq::<(String, String, String)>::empty()) =~= Seq::<(
                Seq<char>,
                Seq<char>,
                Seq<char>,
            )>::empty());
        }
    }
    let networks = match get_member(&doc, "network_breakdown") {
        Some(w) => match w {
            Json::Arr(es) => network_rows(es, 0),
            _ => Vec::new(),
        },
        None => Vec::new(),
    };
    proof {
        if rep_rows2(networks@) != sp_doc_network_rows(doc.jv()) {
            assert(rep_rows2(Seq::<(String, String)>::empty()) =~= Seq::<(
                Seq<char>,
                Seq<char>,
            )>::empty());
        }
    }
    Some(PortfolioReport { total_value, total_with_nft, apps_total, holdings, networks })
}

/// The three summary lines above the tables.
pub fn summary_lines(rep: &PortfolioReport) -> (r: Vec<String>)
    ensures
        r@.len() == 3,
        r@[0]@ == "Total Portfolio Value: "@ + rep.total_value@,
        r@[1]@ == "Total with NFTs: "@ + rep.total_with_nft@,
        r@[2]@ == "DeFi Apps Value: "@ + rep.apps_total@,
{
    let mut a = String::new();
    a.append("Total Portfolio Value: ");
    a.append(rep.total_value.as_str());
    let mut b = String::new();
    b.append("Total with NFTs: ");
    b.append(rep.total_with_nft.as_str());
    let mut c = String::new();
    c.append("DeFi Apps Value: ");
    c.append(rep.apps_total.as_str());
    proof {
        assert(a@ =~= "Total Portfolio Value: "@ + rep.total_value@);
        assert(b@ =~= "Total with NFTs: "@ + rep.total_with_nft@);
        assert(c@ =~= "DeFi Apps Value: "@ + rep.apps_total@);
    }
    let mut r: Vec<String> = Vec::new();
    r.push(a);
    r.push(b);
    r.push(c);
    r
}

} // verus!
