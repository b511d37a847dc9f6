//! The response model: the provider's JSON schema, with its camelCase
//! field names, read into flat records.
//!
//! Monetary fields and fractions are carried as micro-units (see
//! `number`).  Unknown members of a response are ignored; a missing
//! or differently typed member is a mismatch.

use vstd::prelude::*;
use crate::json::{Json, JsonV, jv_get, jv_of_elems, lemma_jv_of_elems_index, get_member};
use crate::number::{sp_micros, micros_of_token};
use crate::strutil::chars_to_string;

verus! {

pub struct Portfolio {
    pub app_balances: Vec<AppBalance>,
    pub token_balances: Vec<TokenBalance>,
    pub nft_balances: Vec<NftBalance>,
    pub totals: PortfolioTotals,
}

pub struct AppBalance {
    pub app_name: String,
    pub balance_usd: i64,
    pub app_id: String,
    pub network: String,
}

pub struct TokenBalance {
    pub address: String,
    pub network: String,
    pub token: Token,
}

pub struct Token {
    pub balance_usd: i64,
    pub balance: i64,
    pub base_token: BaseToken,
}

pub struct BaseToken {
    pub symbol: String,
    pub name: String,
    pub network: String,
    pub img_url: String,
}

pub struct NftBalance {
    pub network: String,
    pub balance_usd: i64,
}

pub struct PortfolioTotals {
    pub total: i64,
    pub total_with_nft: i64,
    pub apps_total: i64,
    pub total_by_network: Vec<NetworkTotal>,
    pub holdings: Vec<Holding>,
}

pub struct NetworkTotal {
    pub network: String,
    pub total: i64,
}

pub struct Holding {
    pub label: String,
    pub balance_usd: i64,
    pub pct: i64,
}

// ---------- what each record reads from a JSON value ----------

/// A string member under `key`.
pub open spec fn sp_str_field(v: JsonV, key: Seq<char>) -> Option<Seq<char>> {
    match jv_get(v, key) {
        Some(JsonV::Str(t)) => Some(t),
        _ => None,
    }
}

/// A number member under `key`, as micro-units.
pub open spec fn sp_num_field(v: JsonV, key: Seq<char>) -> Option<int> {
    match jv_get(v, key) {
        Some(JsonV::Num(l)) => sp_micros(l),
        _ => None,
    }
}

pub open spec fn sp_holding(v: JsonV) -> Option<(Seq<char>, int, int)> {
    match (sp_str_field(v, "label"@), sp_num_field(v, "balanceUSD"@), sp_num_field(v, "pct"@)) {
        (Some(t), Some(b), Some(p)) => Some((t, b, p)),
        _ => None,
    }
}

pub open spec fn sp_network_total(v: JsonV) -> Option<(Seq<char>, int)> {
    match (sp_str_field(v, "network"@), sp_num_field(v, "total"@)) {
        (Some(t), Some(b)) => Some((t, b)),
        _ => None,
    }
}

pub open spec fn sp_app_balance(v: JsonV) -> Option<(Seq<char>, int, Seq<char>, Seq<char>)> {
    match (
        sp_str_field(v, "appName"@),
        sp_num_field(v, "balanceUSD"@),
        sp_str_field(v, "appId"@),
        sp_str_field(v, "network"@),
    ) {
        (Some(an), Some(b), Some(ai), Some(nw)) => Some((an, b, ai, nw)),
        _ => None,
    }
}

pub open spec fn sp_base_token(v: JsonV) -> Option<(Seq<char>, Seq<char>, Seq<char>, Seq<char>)> {
    match (
        sp_str_field(v, "symbol"@),
        sp_str_field(v, "name"@),
        sp_str_field(v, "network"@),
        sp_str_field(v, "imgUrl"@),
    ) {
        (Some(sy), Some(nm), Some(nw), Some(iu)) => Some((sy, nm, nw, iu)),
        _ => None,
    }
}

pub open spec fn sp_token(v: JsonV) -> Option<(int, int, (Seq<char>, Seq<char>, Seq<char>, Seq<char>))> {
    match (sp_num_field(v, "balanceUSD"@), sp_num_field(v, "balance"@)) {
        (Some(b), Some(ba)) => match jv_get(v, "baseToken"@) {
            Some(bt) => match sp_base_token(bt) {
                Some(btv) => Some((b, ba, btv)),
                None => None,
            },
            None => None,
        },
        _ => None,
    }
}

pub open spec fn sp_token_balance(v: JsonV) -> Option<(
    Seq<char>,
    Seq<char>,
    (int, int, (Seq<char>, Seq<char>, Seq<char>, Seq<char>)),
)> {
    match (sp_str_field(v, "address"@), sp_str_field(v, "network"@)) {
        (Some(ad), Some(nw)) => match jv_get(v, "token"@) {
            Some(tv) => match sp_token(tv) {
                Some(tk) => Some((ad, nw, tk)),
                None => None,
            },
            None => None,
        },
        _ => None,
    }
}

pub open spec fn sp_nft_balance(v: JsonV) -> Option<(Seq<char>, int)> {
    match (sp_str_field(v, "network"@), sp_num_field(v, "balanceUSD"@)) {
        (Some(nw), Some(b)) => Some((nw, b)),
        _ => None,
    }
}

// sequences of records, element by element

pub open spec fn sp_holdings(es: Seq<JsonV>, k: int) -> Option<Seq<(Seq<char>, int, int)>>
    decreases es.len() - k when 0 <= k <= es.len()
{
    if k >= es.len() {
        Some(Seq::empty())
    } else {
        match sp_holding(es[k]) {
            None => None,
            Some(h) => match sp_holdings(es, k + 1) {
                None => None,
                Some(t) => Some(seq![h] + t),
            },
        }
    }
}

pub open spec fn sp_network_totals(es: Seq<JsonV>, k: int) -> Option<Seq<(Seq<char>, int)>>
    decreases es.len() - k when 0 <= k <= es.len()
{
    if k >= es.len() {
        Some(Seq::empty())
    } else {
        match sp_network_total(es[k]) {
            None => None,
            Some(h) => match sp_network_totals(es, k + 1) {
                None => None,
                Some(t) => Some(seq![h] + t),
            },
        }
    }
}

pub open spec fn sp_app_balances(es: Seq<JsonV>, k: int) -> Option<
    Seq<(Seq<char>, int, Seq<char>, Seq<char>)>,
>
    decreases es.len() - k when 0 <= k <= es.len()
{
    if k >= es.len() {
        Some(Seq::empty())
    } else {
        match sp_app_balance(es[k]) {
            None => None,
            Some(h) => match sp_app_balances(es, k + 1) {
                None => None,
                Some(t) => Some(seq![h] + t),
            },
        }
    }
}

pub open spec fn sp_token_balances(es: Seq<JsonV>, k: int) -> Option<
    Seq<(Seq<char>, Seq<char>, (int, int, (Seq<char>, Seq<char>, Seq<char>, Seq<char>)))>,
>
    decreases es.len() - k when 0 <= k <= es.len()
{
    if k >= es.len() {
        Some(Seq::empty())
    } else {
        match sp_token_balance(es[k]) {
            None => None,
            Some(h) => match sp_token_balances(es, k + 1) {
                None => None,
                Some(t) => Some(seq![h] + t),
            },
        }
    }
}

pub open spec fn sp_nft_balances(es: Seq<JsonV>, k: int) -> Option<Seq<(Seq<char>, int)>>
    decreases es.len() - k when 0 <= k <= es.len()
{
    if k >= es.len() {
        Some(Seq::empty())
    } else {
        match sp_nft_balance(es[k]) {
            None => None,
            Some(h) => match sp_nft_balances(es, k + 1) {
                None => None,
                Some(t) => Some(seq![h] + t),
            },
        }
    }
}

/// The totals block.
pub open spec fn sp_totals(v: JsonV) -> Option<(
    int,
    int,
    int,
    Seq<(Seq<char>, int)>,
    Seq<(Seq<char>, int, int)>,
)> {
    match (
        sp_num_field(v, "total"@),
        sp_num_field(v, "totalWithNFT"@),
        sp_num_field(v, "appsTotal"@),
    ) {
        (Some(t), Some(twn), Some(at)) => match (jv_get(v, "totalByNetwork"@), jv_get(
            v,
            "holdings"@,
        )) {
            (Some(JsonV::Arr(nws)), Some(JsonV::Arr(hds))) => match (sp_network_totals(nws, 0),
                sp_holdings(hds, 0)) {
                (Some(ns), Some(hs)) => Some((t, twn, at, ns, hs)),
                _ => None,
            },
            _ => None,
        },
        _ => None,
    }
}

/// The whole portfolio value.
pub open spec fn sp_portfolio(v: JsonV) -> Option<(
    Seq<(Seq<char>, int, Seq<char>, Seq<char>)>,
    Seq<(Seq<char>, Seq<char>, (int, int, (Seq<char>, Seq<char>, Seq<char>, Seq<char>)))>,
    Seq<(Seq<char>, int)>,
    (int, int, int, Seq<(Seq<char>, int)>, Seq<(Seq<char>, int, int)>),
)> {
    match (jv_get(v, "appBalances"@), jv_get(v, "tokenBalances"@), jv_get(v, "nftBalances"@),
        jv_get(v, "totals"@)) {
        (Some(JsonV::Arr(abs)), Some(JsonV::Arr(tbs)), Some(JsonV::Arr(nbs)), Some(tv)) => match (
            sp_app_balances(abs, 0),
            sp_token_balances(tbs, 0),
            sp_nft_balances(nbs, 0),
            sp_totals(tv),
        ) {
            (Some(a), Some(t), Some(nf), Some(to)) => Some((a, t, nf, to)),
            _ => None,
        },
        _ => None,
    }
}

// ---------- what the records stand for ----------

pub open spec fn rep_holdings(hs: Seq<Holding>) -> Seq<(Seq<char>, int, int)> {
    Seq::new(hs.len(), |i: int| (hs[i].label@, hs[i].balance_usd as int, hs[i].pct as int))
}

pub open spec fn rep_network_totals(ns: Seq<NetworkTotal>) -> Seq<(Seq<char>, int)> {
    Seq::new(ns.len(), |i: int| (ns[i].network@, ns[i].total as int))
}

pub open spec fn rep_app_balances(xs: Seq<AppBalance>) -> Seq<(Seq<char>, int, Seq<char>, Seq<char>)> {
    Seq::new(xs.len(), |i: int| (xs[i].app_name@, xs[i].balance_usd as int, xs[i].app_id@, xs[i].network@))
}

pub open spec fn rep_base_token(b: BaseToken) -> (Seq<char>, Seq<char>, Seq<char>, Seq<char>) {
    (b.symbol@, b.name@, b.network@, b.img_url@)
}

pub open spec fn rep_token(t: Token) -> (int, int, (Seq<char>, Seq<char>, Seq<char>, Seq<char>)) {
    (t.balance_usd as int, t.balance as int, rep_base_token(t.base_token))
}

pub open spec fn rep_token_balances(xs: Seq<TokenBalance>) -> Seq<(
    Seq<char>,
    Seq<char>,
    (int, int, (Seq<char>, Seq<char>, Seq<char>, Seq<char>)),
)> {
    Seq::new(xs.len(), |i: int| (xs[i].address@, xs[i].network@, rep_token(xs[i].token)))
}

pub open spec fn rep_nft_balances(xs: Seq<NftBalance>) -> Seq<(Seq<char>, int)> {
    Seq::new(xs.len(), |i: int| (xs[i].network@, xs[i].balance_usd as int))
}

pub open spec fn rep_totals(t: PortfolioTotals) -> (
    int,
    int,
    int,
    Seq<(Seq<char>, int)>,
    Seq<(Seq<char>, int, int)>,
) {
    (
        t.total as int,
        t.total_with_nft as int,
        t.apps_total as int,
        rep_network_totals(t.total_by_network@),
        rep_holdings(t.holdings@),
    )
}

pub open spec fn rep_portfolio(p: Portfolio) -> (
    Seq<(Seq<char>, int, Seq<char>, Seq<char>)>,
    Seq<(Seq<char>, Seq<char>, (int, int, (Seq<char>, Seq<char>, Seq<char>, Seq<char>)))>,
    Seq<(Seq<char>, int)>,
    (int, int, int, Seq<(Seq<char>, int)>, Seq<(Seq<char>, int, int)>),
) {
    (
        rep_app_balances(p.app_balances@),
        rep_token_balances(p.token_balances@),
        rep_nft_balances(p.nft_balances@),
        rep_totals(p.totals),
    )
}

// ---------- executable decoders ----------

fn str_field(v: &Json, key: &str) -> (r: Result<String, ()>)
    ensures
        match r {
            Ok(s) => sp_str_field(v.jv(), key@) == Some(s@),
            Err(_) => sp_str_field(v.jv(), key@) is None,
        },
{
    match get_member(v, key) {
        Some(w) => match w {
            Json::Str(t) => Ok(chars_to_string(t)),
            _ => Err(()),
        },
        None => Err(()),
    }
}

fn num_field(v: &Json, key: &str) -> (r: Result<i64, ()>)
    ensures
        match r {
            Ok(m) => sp_num_field(v.jv(), key@) == Some(m as int),
            Err(_) => sp_num_field(v.jv(), key@) is None,
        },
{
    match get_member(v, key) {
        Some(w) => match w {
            Json::Num(l) => match micros_of_token(l) {
                Some(m) => Ok(m),
                None => Err(()),
            },
            _ => Err(()),
        },
        None => Err(()),
    }
}

pub fn decode_holding(v: &Json) -> (r: Result<Holding, ()>)
    ensures
        match r {
            Ok(h) => sp_holding(v.jv()) == Some((h.label@, h.balance_usd as int, h.pct as int)),
            Err(_) => sp_holding(v.jv()) is None,
        },
{
    let label = match str_field(v, "label") {
        Ok(s) => s,
        Err(_) => { return Err(()); },
    };
    let balance_usd = match num_field(v, "balanceUSD") {
        Ok(m) => m,
        Err(_) => { return Err(()); },
    };
    let pct = match num_field(v, "pct") {
        Ok(m) => m,
        Err(_) => { return Err(()); },
    };
    Ok(Holding { label, balance_usd, pct })
}

pub fn decode_network_total(v: &Json) -> (r: Result<NetworkTotal, ()>)
    ensures
        match r {
            Ok(h) => sp_network_total(v.jv()) == Some((h.network@, h.total as int)),
            Err(_) => sp_network_total(v.jv()) is None,
        },
{
    let network = match str_field(v, "network") {
        Ok(s) => s,
        Err(_) => { return Err(()); },
    };
    let total = match num_field(v, "total") {
        Ok(m) => m,
        Err(_) => { return Err(()); },
    };
    Ok(NetworkTotal { network, total })
}

pub fn decode_app_balance(v: &Json) -> (r: Result<AppBalance, ()>)
    ensures
        match r {
            Ok(h) => sp_app_balance(v.jv()) == Some(
                (h.app_name@, h.balance_usd as int, h.app_id@, h.network@),
            ),
            Err(_) => sp_app_balance(v.jv()) is None,
        },
{
    let app_name = match str_field(v, "appName") {
        Ok(s) => s,
        Err(_) => { return Err(()); },
    };
    let balance_usd = match num_field(v, "balanceUSD") {
        Ok(m) => m,
        Err(_) => { return Err(()); },
    };
    let app_id = match str_field(v, "appId") {
        Ok(s) => s,
        Err(_) => { return Err(()); },
    };
    let network = match str_field(v, "network") {
        Ok(s) => s,
        Err(_) => { return Err(()); },
    };
    Ok(AppBalance { app_name, balance_usd, app_id, network })
}

pub fn decode_base_token(v: &Json) -> (r: Result<BaseToken, ()>)
    ensures
        match r {
            Ok(h) => sp_base_token(v.jv()) == Some(rep_base_token(h)),
            Err(_) => sp_base_token(v.jv()) is None,
        },
{
    let symbol = match str_field(v, "symbol") {
        Ok(s) => s,
        Err(_) => { return Err(()); },
    };
    let name = match str_field(v, "name") {
        Ok(s) => s,
        Err(_) => { return Err(()); },
    };
    let network = match str_field(v, "network") {
        Ok(s) => s,
        Err(_) => { return Err(()); },
    };
    let img_url = match str_field(v, "imgUrl") {
        Ok(s) => s,
        Err(_) => { return Err(()); },
    };
    Ok(BaseToken { symbol, name, network, img_url })
}

pub fn decode_token(v: &Json) -> (r: Result<Token, ()>)
    ensures
        match r {
            Ok(h) => sp_token(v.jv()) == Some(rep_token(h)),
            Err(_) => sp_token(v.jv()) is None,
        },
{
    let balance_usd = match num_field(v, "balanceUSD") {
        Ok(m) => m,
        Err(_) => { return Err(()); },
    };
    let balance = match num_field(v, "balance") {
        Ok(m) => m,
        Err(_) => { return Err(()); },
    };
    let bt = match get_member(v, "baseToken") {
        Some(w) => w,
        None => { return Err(()); },
    };
    let base_token = match decode_base_token(bt) {
        Ok(b) => b,
        Err(_) => { return Err(()); },
    };
    Ok(Token { balance_usd, balance, base_token })
}

pub fn decode_token_balance(v: &Json) -> (r: Result<TokenBalance, ()>)
    ensures
        match r {
            Ok(h) => sp_token_balance(v.jv()) == Some(
                (h.address@, h.network@, rep_token(h.token)),
            ),
            Err(_) => sp_token_balance(v.jv()) is None,
        },
{
    let address = match str_field(v, "address") {
        Ok(s) => s,
        Err(_) => { return Err(()); },
    };
    let network = match str_field(v, "network") {
        Ok(s) => s,
        Err(_) => { return Err(()); },
    };
    let tv = match get_member(v, "token") {
        Some(w) => w,
        None => { return Err(()); },
    };
    let token = match decode_token(tv) {
        Ok(t) => t,
        Err(_) => { return Err(()); },
    };
    Ok(TokenBalance { address, network, token })
}

pub fn decode_nft_balance(v: &Json) -> (r: Result<NftBalance, ()>)
    ensures
        match r {
            Ok(h) => sp_nft_balance(v.jv()) == Some((h.network@, h.balance_usd as int)),
            Err(_) => sp_nft_balance(v.jv()) is None,
        },
{
    let network = match str_field(v, "network") {
        Ok(s) => s,
        Err(_) => { return Err(()); },
    };
    let balance_usd = match num_field(v, "balanceUSD") {
        Ok(m) => m,
        Err(_) => { return Err(()); },
    };
    Ok(NftBalance { network, balance_usd })
}

fn decode_holdings(es: &Vec<Json>, k: usize) -> (r: Result<Vec<Holding>, ()>)
    requires
        k <= es@.len(),
    ensures
        match r {
            Ok(hs) => sp_holdings(jv_of_elems(es@), k as int) == Some(rep_holdings(hs@)),
            Err(_) => sp_holdings(jv_of_elems(es@), k as int) is None,
        },
    decreases es@.len() - k,
{
    proof {
        lemma_jv_of_elems_index(es@);
    }
    if k >= es.len() {
        let hs: Vec<Holding> = Vec::new();
        proof {
            assert(rep_holdings(hs@) =~= Seq::<(Seq<char>, int, int)>::empty());
        }
        return Ok(hs);
    }
    let h = match decode_holding(&es[k]) {
        Ok(h) => h,
        Err(_) => { return Err(()); },
    };
    match decode_holdings(es, k + 1) {
        Ok(hs) => {
            let ghost rest = hs@;
            let mut hs = hs;
            hs.insert(0, h);
            proof {
                assert(rep_holdings(hs@) =~= seq![
                    (h.label@, h.balance_usd as int, h.pct as int),
                ] + rep_holdings(rest));
            }
            Ok(hs)
        },
        Err(_) => Err(()),
    }
}

fn decode_network_totals(es: &Vec<Json>, k: usize) -> (r: Result<Vec<NetworkTotal>, ()>)
    requires
        k <= es@.len(),
    ensures
        match r {
            Ok(hs) => sp_network_totals(jv_of_elems(es@), k as int) == Some(
                rep_network_totals(hs@),
            ),
            Err(_) => sp_network_totals(jv_of_elems(es@), k as int) is None,
        },
    decreases es@.len() - k,
{
    proof {
        lemma_jv_of_elems_index(es@);
    }
    if k >= es.len() {
        let hs: Vec<NetworkTotal> = Vec::new();
        proof {
            assert(rep_network_totals(hs@) =~= Seq::<(Seq<char>, int)>::empty());
        }
        return Ok(hs);
    }
    let h = match decode_network_total(&es[k]) {
        Ok(h) => h,
        Err(_) => { return Err(()); },
    };
    match decode_network_totals(es, k + 1) {
        Ok(hs) => {
            let ghost rest = hs@;
            let mut hs = hs;
            hs.insert(0, h);
            proof {
                assert(rep_network_totals(hs@) =~= seq![(h.network@, h.total as int)]
                    + rep_network_totals(rest));
            }
            Ok(hs)
        },
        Err(_) => Err(()),
    }
}

fn decode_app_balances(es: &Vec<Json>, k: usize) -> (r: Result<Vec<AppBalance>, ()>)
    requires
        k <= es@.len(),
    ensures
        match r {
            Ok(hs) => sp_app_balances(jv_of_elems(es@), k as int) == Some(rep_app_balances(hs@)),
            Err(_) => sp_app_balances(jv_of_elems(es@), k as int) is None,
        },
    decreases es@.len() - k,
{
    proof {
        lemma_jv_of_elems_index(es@);
    }
    if k >= es.len() {
        let hs: Vec<AppBalance> = Vec::new();
        proof {
            assert(rep_app_balances(hs@) =~= Seq::<(Seq<char>, int, Seq<char>, Seq<char>)>::empty());
        }
        return Ok(hs);
    }
    let h = match decode_app_balance(&es[k]) {
        Ok(h) => h,
        Err(_) => { return Err(()); },
    };
    match decode_app_balances(es, k + 1) {
        Ok(hs) => {
            let ghost rest = hs@;
            let mut hs = hs;
            hs.insert(0, h);
            proof {
                assert(rep_app_balances(hs@) =~= seq![
                    (h.app_name@, h.balance_usd as int, h.app_id@, h.network@),
                ] + rep_app_balances(rest));
            }
            Ok(hs)
        },
        Err(_) => Err(()),
    }
}

fn decode_token_balances(es: &Vec<Json>, k: usize) -> (r: Result<Vec<TokenBalance>, ()>)
    requires
        k <= es@.len(),
    ensures
        match r {
            Ok(hs) => sp_token_balances(jv_of_elems(es@), k as int) == Some(
                rep_token_balances(hs@),
            ),
            Err(_) => sp_token_balances(jv_of_elems(es@), k as int) is None,
        },
    decreases es@.len() - k,
{
    proof {
        lemma_jv_of_elems_index(es@);
    }
    if k >= es.len() {
        let hs: Vec<TokenBalance> = Vec::new();
        proof {
            assert(rep_token_balances(hs@) =~= Seq::<(
                Seq<char>,
                Seq<char>,
                (int, int, (Seq<char>, Seq<char>, Seq<char>, Seq<char>)),
            )>::empty());
        }
        return Ok(hs);
    }
    let h = match decode_token_balance(&es[k]) {
        Ok(h) => h,
        Err(_) => { return Err(()); },
    };
    match decode_token_balances(es, k + 1) {
        Ok(hs) => {
            let ghost rest = hs@;
            let mut hs = hs;
            hs.insert(0, h);
            proof {
                assert(rep_token_balances(hs@) =~= seq![
                    (h.address@, h.network@, rep_token(h.token)),
                ] + rep_token_balances(rest));
            }
            Ok(hs)
        },
        Err(_) => Err(()),
    }
}

fn decode_nft_balances(es: &Vec<Json>, k: usize) -> (r: Result<Vec<NftBalance>, ()>)
    requires
        k <= es@.len(),
    ensures
        match r {
            Ok(hs) => sp_nft_balances(jv_of_elems(es@), k as int) == Some(rep_nft_balances(hs@)),
            Err(_) => sp_nft_balances(jv_of_elems(es@), k as int) is None,
        },
    decreases es@.len() - k,
{
    proof {
        lemma_jv_of_elems_index(es@);
    }
    if k >= es.len() {
        let hs: Vec<NftBalance> = Vec::new();
        proof {
            assert(rep_nft_balances(hs@) =~= Seq::<(Seq<char>, int)>::empty());
        }
        return Ok(hs);
    }
    let h = match decode_nft_balance(&es[k]) {
        Ok(h) => h,
        Err(_) => { return Err(()); },
    };
    match decode_nft_balances(es, k + 1) {
        Ok(hs) => {
            let ghost rest = hs@;
            let mut hs = hs;
            hs.insert(0, h);
            proof {
                assert(rep_nft_balances(hs@) =~= seq![(h.network@, h.balance_usd as int)]
                    + rep_nft_balances(rest));
            }
            Ok(hs)
        },
        Err(_) => Err(()),
    }
}

pub fn decode_totals(v: &Json) -> (r: Result<PortfolioTotals, ()>)
    ensures
        match r {
            Ok(t) => sp_totals(v.jv()) == Some(rep_totals(t)),
            Err(_) => sp_totals(v.jv()) is None,
        },
{
    let total = match num_field(v, "total") {
        Ok(m) => m,
        Err(_) => { return Err(()); },
    };
    let total_with_nft = match num_field(v, "totalWithNFT") {
        Ok(m) => m,
        Err(_) => { return Err(()); },
    };
    let apps_total = match num_field(v, "appsTotal") {
        Ok(m) => m,
        Err(_) => { return Err(()); },
    };
    let nws = match get_member(v, "totalByNetwork") {
        Some(w) => w,
        None => { return Err(()); },
    };
    let hds = match get_member(v, "holdings") {
        Some(w) => w,
        None => { return Err(()); },
    };
    let total_by_network = match nws {
        Json::Arr(es) => match decode_network_totals(es, 0) {
            Ok(ns) => ns,
            Err(_) => { return Err(()); },
        },
        _ => { return Err(()); },
    };
    let holdings = match hds {
        Json::Arr(es) => match decode_holdings(es, 0) {
            Ok(hs) => hs,
            Err(_) => { return Err(()); },
        },
        _ => { return Err(()); },
    };
    Ok(PortfolioTotals { total, total_with_nft, apps_total, total_by_network, holdings })
}

/// Reads a whole portfolio value; mirrors the provider's schema.
pub fn decode_portfolio(v: &Json) -> (r: Result<Portfolio, ()>)
    ensures
        match r {
            Ok(p) => sp_portfolio(v.jv()) == Some(rep_portfolio(p)),
            Err(_) => sp_portfolio(v.jv()) is None,
        },
{
    let abs = match get_member(v, "appBalances") {
        Some(w) => w,
        None => { return Err(()); },
    };
    let tbs = match get_member(v, "tokenBalances") {
        Some(w) => w,
        None => { return Err(()); },
    };
    let nbs = match get_member(v, "nftBalances") {
        Some(w) => w,
        None => { return Err(()); },
    };
    let tv = match get_member(v, "totals") {
        Some(w) => w,
        None => { return Err(()); },
    };
    let app_balances = match abs {
        Json::Arr(es) => match decode_app_balances(es, 0) {
            Ok(x) => x,
            Err(_) => { return Err(()); },
        },
        _ => { return Err(()); },
    };
    let token_balances = match tbs {
        Json::Arr(es) => match decode_token_balances(es, 0) {
            Ok(x) => x,
            Err(_) => { return Err(()); },
        },
        _ => { return Err(()); },
    };
    let nft_balances = match nbs {
        Json::Arr(es) => match decode_nft_balances(es, 0) {
            Ok(x) => x,
            Err(_) => { return Err(()); },
        },
        _ => { return Err(()); },
    };
    let totals = match decode_totals(tv) {
        Ok(t) => t,
        Err(_) => { return Err(()); },
    };
    Ok(Portfolio { app_balances, token_balances, nft_balances, totals })
}

} // verus!
