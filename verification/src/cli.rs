//! What the payment command line prints, from plain values.
use vstd::prelude::*;
use crate::amount::{
    amount_to_string, amount_to_string4, decimal_text_fits, decimal_text_fits_exec, parse_amount_units,
    spec_decimal_units,
    spec_units_text, spec_units_text4,
};
use crate::platform::{network_text, NetworkName};
use crate::text::{concat, concat3, text_eq};

verus! {

/// Rounds milliseconds to whole seconds, half a second up.
pub fn round_duration_to_sec(millis: u128) -> (r: u64)
    requires
        (millis + 500) / 1000 <= u64::MAX,
    ensures
        r == (millis + 500) / 1000,
{
    ((millis + 500) / 1000) as u64
}

/// Rounds signed milliseconds to whole seconds, half a second up; the result is taken as
/// unsigned, as the command line does with a duration that it knows is not negative.
pub fn round_duration_to_sec_chrono(millis: i64) -> (r: u64)
    requires
        0 <= millis <= i64::MAX - 500,
    ensures
        r == (millis + 500) / 1000,
{
    ((millis + 500) / 1000) as u64
}

/// How an endpoint fared when last checked.
#[derive(Debug)]
pub enum VerifyEndpointResult {
    /// Reachable: how far behind the head it is, and the time the check took, both printed.
    Reachable { head_seconds_behind: String, check_time_ms: String },
    NoBlockInfo,
    WrongChainId,
    RpcWeb3Error(String),
    OtherNetworkError(String),
    HeadBehind(String),
    Unreachable,
}

/// An RPC endpoint of a network, as the driver reports it; times in milliseconds, the last
/// verification as the driver prints it.
#[derive(Debug)]
pub struct Web3FullNodeData {
    pub name: String,
    pub endpoint: String,
    pub source_id: Option<String>,
    pub is_allowed: bool,
    pub last_chosen: Option<i64>,
    pub last_verified: Option<String>,
    pub verify_result: Option<VerifyEndpointResult>,
}

/// Where the endpoints of a network were found: DNS records and JSON documents, each with
/// its id and address.
#[derive(Debug)]
pub struct Web3ExternalSources {
    pub dns_sources: Vec<(String, String)>,
    pub json_sources: Vec<(String, String)>,
}

/// The text shown for how far an endpoint is behind, and its ping.
pub open spec fn behind_text(v: Option<VerifyEndpointResult>) -> Seq<char> {
    match v {
        None => "-"@,
        Some(VerifyEndpointResult::Reachable { head_seconds_behind, check_time_ms }) => head_seconds_behind@ + "s"@
            + " / ("@ + check_time_ms@ + "ms)"@,
        Some(VerifyEndpointResult::NoBlockInfo) => "N/A"@,
        Some(VerifyEndpointResult::WrongChainId) => "ChainID mismatch"@,
        Some(VerifyEndpointResult::RpcWeb3Error(_)) => "Err-rpc"@,
        Some(VerifyEndpointResult::OtherNetworkError(_)) => "Err-Other"@,
        Some(VerifyEndpointResult::HeadBehind(b)) => "Behind - "@ + b@,
        Some(VerifyEndpointResult::Unreachable) => "Unreachable"@,
    }
}

fn behind(v: &Option<VerifyEndpointResult>) -> (r: String)
    ensures
        r@ == behind_text(*v),
{
    match v {
        None => "-".to_string(),
        Some(VerifyEndpointResult::Reachable { head_seconds_behind, check_time_ms }) => {
            let mut s = concat(head_seconds_behind.as_str(), "s");
            s.append(" / (");
            s.append(check_time_ms.as_str());
            s.append("ms)");
            s
        },
        Some(VerifyEndpointResult::NoBlockInfo) => "N/A".to_string(),
        Some(VerifyEndpointResult::WrongChainId) => "ChainID mismatch".to_string(),
        Some(VerifyEndpointResult::RpcWeb3Error(_)) => "Err-rpc".to_string(),
        Some(VerifyEndpointResult::OtherNetworkError(_)) => "Err-Other".to_string(),
        Some(VerifyEndpointResult::HeadBehind(b)) => concat("Behind - ", b.as_str()),
        Some(VerifyEndpointResult::Unreachable) => "Unreachable".to_string(),
    }
}

/// The latest time any endpoint was chosen, where one was.
pub open spec fn latest_chosen(nodes: Seq<Web3FullNodeData>) -> Option<i64>
    decreases nodes.len(),
{
    if nodes.len() == 0 {
        None
    } else {
        let rest = latest_chosen(nodes.drop_last());
        match (rest, nodes.last().last_chosen) {
            (None, c) => c,
            (Some(r), None) => Some(r),
            (Some(r), Some(c)) => Some(if c >= r { c } else { r }),
        }
    }
}

fn latest_chosen_exec(nodes: &Vec<Web3FullNodeData>) -> (r: Option<i64>)
    ensures
        r == latest_chosen(nodes@),
{
    let mut best: Option<i64> = None;
    let mut i: usize = 0;
    while i < nodes.len()
        invariant
            0 <= i <= nodes.len(),
            best == latest_chosen(nodes@.take(i as int)),
        decreases nodes.len() - i,
    {
        proof {
            assert(nodes@.take(i + 1).drop_last() =~= nodes@.take(i as int));
        }
        best = match (best, nodes[i].last_chosen) {
            (None, c) => c,
            (Some(r), None) => Some(r),
            (Some(r), Some(c)) => Some(if c >= r { c } else { r }),
        };
        i = i + 1;
    }
    proof {
        assert(nodes@.take(i as int) =~= nodes@);
    }
    best
}

/// The last source of `v` with id `id`, where there is one.
pub open spec fn last_source(v: Seq<(String, String)>, id: Seq<char>) -> Option<Seq<char>>
    decreases v.len(),
{
    if v.len() == 0 {
        None
    } else if v.last().0@ == id {
        Some(v.last().1@)
    } else {
        last_source(v.drop_last(), id)
    }
}

fn last_source_exec(v: &Vec<(String, String)>, id: &str) -> (r: Option<String>)
    ensures
        match last_source(v@, id@) {
            Some(u) => r matches Some(x) && x@ == u,
            None => r is None,
        },
{
    let mut i = v.len();
    proof {
        assert(v@.take(i as int) =~= v@);
    }
    while i > 0
        invariant
            0 <= i <= v.len(),
            last_source(v@, id@) == last_source(v@.take(i as int), id@),
        decreases i,
    {
        let k = i - 1;
        proof {
            assert(v@.take(i as int).drop_last() =~= v@.take(k as int));
            assert(v@.take(i as int).last() == v@[k as int]);
        }
        if text_eq(v[k].0.as_str(), id) {
            return Some(v[k].1.clone());
        }
        i = k;
    }
    None
}

/// Where an endpoint comes from: the configuration, a JSON document or DNS record (a JSON
/// document wins where both name it), "not found" where no source has its id, "N/A" where
/// the network's sources are unknown.
pub open spec fn source_text(sources: Option<&Web3ExternalSources>, source_id: Option<String>) -> Seq<char> {
    match sources {
        None => "N/A"@,
        Some(s) => match source_id {
            None => "config"@,
            Some(id) => match last_source(s.json_sources@, id@) {
                Some(u) => "json source:\n"@ + u,
                None => match last_source(s.dns_sources@, id@) {
                    Some(u) => "dns source:\n"@ + u,
                    None => "not found"@,
                },
            },
        },
    }
}

fn source_info(sources: Option<&Web3ExternalSources>, source_id: &Option<String>) -> (r: String)
    ensures
        r@ == source_text(sources, *source_id),
{
    match sources {
        None => "N/A".to_string(),
        Some(s) => match source_id {
            None => "config".to_string(),
            Some(id) => match last_source_exec(&s.json_sources, id.as_str()) {
                Some(u) => concat("json source:\n", u.as_str()),
                None => match last_source_exec(&s.dns_sources, id.as_str()) {
                    Some(u) => concat("dns source:\n", u.as_str()),
                    None => "not found".to_string(),
                },
            },
        },
    }
}

/// The row the command line prints for one endpoint.
pub open spec fn rpc_row(n: Web3FullNodeData, latest: Option<i64>, sources: Option<&Web3ExternalSources>) -> Seq<Seq<char>> {
    seq![
        n.name@ + "\n("@ + n.endpoint@ + ")"@,
        (if n.is_allowed { "Y"@ } else { "N"@ }) + " / "@ + (if n.last_chosen is Some && n.last_chosen
            == latest { "Y"@ } else { "N"@ }),
        match n.last_verified {
            Some(t) => t@.take(19),
            None => "-"@,
        },
        behind_text(n.verify_result),
        source_text(sources, n.source_id),
    ]
}

/// A printed table: its header, column titles and rows.
#[derive(Debug)]
pub struct Table {
    pub header: String,
    pub columns: Vec<String>,
    pub rows: Vec<Vec<String>>,
}

pub open spec fn texts(v: Seq<String>) -> Seq<Seq<char>> {
    v.map_values(|s: String| s@)
}

/// The table of a network's RPC endpoints.
pub fn run_command_rpc_entry(
    driver: &str,
    network: &str,
    sources: Option<&Web3ExternalSources>,
    node_infos: &Vec<Web3FullNodeData>,
) -> (r: Table)
    requires
        forall|i: int| 0 <= i < node_infos@.len() ==> ((#[trigger] node_infos@[i]).last_verified matches Some(t) ==> t@.len() >= 19),
    ensures
        r.header@ == "Web3 RPC endpoints for driver "@ + driver@ + " and network "@ + network@,
        texts(r.columns@) == seq![
            "Name\n(URL)"@,
            "Active\n/ Leading"@,
            "Last Verified"@,
            "Head seconds\nbehind / ping"@,
            "Source"@,
        ],
        r.rows@.len() == node_infos@.len(),
        forall|i: int| 0 <= i < node_infos@.len() ==> texts((#[trigger] r.rows@[i])@) == rpc_row(
            node_infos@[i],
            latest_chosen(node_infos@),
            sources,
        ),
{
    let latest = latest_chosen_exec(node_infos);
    let mut rows: Vec<Vec<String>> = Vec::new();
    let mut i: usize = 0;
    while i < node_infos.len()
        invariant
            0 <= i <= node_infos@.len(),
            latest == latest_chosen(node_infos@),
            forall|k: int| 0 <= k < node_infos@.len() ==> ((#[trigger] node_infos@[k]).last_verified matches Some(t) ==> t@.len() >= 19),
            rows@.len() == i,
            forall|k: int| 0 <= k < i ==> texts((#[trigger] rows@[k])@) == rpc_row(node_infos@[k], latest, sources),
        decreases node_infos@.len() - i,
    {
        let n = &node_infos[i];
        let name = concat3(n.name.as_str(), "\n(", n.endpoint.as_str());
        let name = concat(name.as_str(), ")");
        let allowed = if n.is_allowed { "Y" } else { "N" };
        let leading = if n.last_chosen.is_some() && n.last_chosen == latest { "Y" } else { "N" };
        let active = concat3(allowed, " / ", leading);
        let verified = match &n.last_verified {
            Some(t) => t.as_str().substring_char(0, 19).to_string(),
            None => "-".to_string(),
        };
        let b = behind(&n.verify_result);
        let src = source_info(sources, &n.source_id);
        let row = vec![name, active, verified, b, src];
        proof {
            let expected = rpc_row(node_infos@[i as int], latest, sources);
            assert(texts(row@) =~= expected);
        }
        rows.push(row);
        i = i + 1;
    }
    let columns = vec![
        "Name\n(URL)".to_string(),
        "Active\n/ Leading".to_string(),
        "Last Verified".to_string(),
        "Head seconds\nbehind / ping".to_string(),
        "Source".to_string(),
    ];
    proof {
        assert(texts(columns@) =~= seq![
            "Name\n(URL)"@,
            "Active\n/ Leading"@,
            "Last Verified"@,
            "Head seconds\nbehind / ping"@,
            "Source"@,
        ]);
    }
    let head = concat3("Web3 RPC endpoints for driver ", driver, " and network ");
    Table { header: concat(head.as_str(), network), columns, rows }
}

/// Flags of the command that lists RPC endpoints.
#[derive(Debug)]
pub struct RpcCommandParams {
    pub all: bool,
    pub verify: bool,
    pub resolve: bool,
    pub no_wait: bool,
}

} // verus!

verus! {

pub open spec fn digit_char(d: int) -> char {
    if d == 0 { '0' } else if d == 1 { '1' } else if d == 2 { '2' } else if d == 3 { '3' } else if d == 4 {
        '4'
    } else if d == 5 { '5' } else if d == 6 { '6' } else if d == 7 { '7' } else if d == 8 { '8' } else {
        '9'
    }
}

/// The decimal digits of `n`.
pub open spec fn decimal(n: nat) -> Seq<char>
    decreases n,
{
    if n < 10 {
        seq![digit_char(n as int)]
    } else {
        decimal(n / 10).push(digit_char((n % 10) as int))
    }
}

/// `v` in decimal, with a minus sign where it is negative.
pub open spec fn int_text(v: int) -> Seq<char> {
    if v < 0 {
        seq!['-'] + decimal((-v) as nat)
    } else {
        decimal(v as nat)
    }
}

fn digit_text(d: u8) -> (r: String)
    requires
        d < 10,
    ensures
        r@ == seq![digit_char(d as int)],
{
    let s = if d == 0 { "0" } else if d == 1 { "1" } else if d == 2 { "2" } else if d == 3 { "3" } else if d
        == 4 { "4" } else if d == 5 { "5" } else if d == 6 { "6" } else if d == 7 { "7" } else if d == 8 {
        "8"
    } else { "9" };
    proof {
        reveal_strlit("0");
        reveal_strlit("1");
        reveal_strlit("2");
        reveal_strlit("3");
        reveal_strlit("4");
        reveal_strlit("5");
        reveal_strlit("6");
        reveal_strlit("7");
        reveal_strlit("8");
        reveal_strlit("9");
    }
    s.to_string()
}

pub(crate) fn decimal_text(n: u128) -> (r: String)
    ensures
        r@ == decimal(n as nat),
    decreases n,
{
    if n < 10 {
        digit_text(n as u8)
    } else {
        let mut s = decimal_text(n / 10);
        let d = digit_text((n % 10) as u8);
        s.append(d.as_str());
        s
    }
}

/// Prints `v` in decimal.
pub fn integer_text(v: i64) -> (r: String)
    ensures
        r@ == int_text(v as int),
{
    if v < 0 {
        let m: i128 = -(v as i128);
        let d = decimal_text(m as u128);
        proof {
            reveal_strlit("-");
        }
        concat("-", d.as_str())
    } else {
        decimal_text(v as u128)
    }
}

/// A problem that a payment driver reports.
#[derive(Debug)]
pub enum DriverStatusProperty {
    InsufficientGas { driver: String, network: String, address: String, needed_gas_est: String },
    InsufficientToken { driver: String, network: String, address: String, needed_token_est: String },
    InvalidChainId { driver: String, chain_id: i64 },
    CantSign { driver: String, network: String, address: String },
    TxStuck { driver: String, network: String },
    RpcError { driver: String, network: String },
}

/// The one-line description of a driver problem in the driver status table.
pub open spec fn issue_text(p: DriverStatusProperty) -> Seq<char> {
    match p {
        DriverStatusProperty::CantSign { address, .. } => "Can't sign "@ + address@,
        DriverStatusProperty::InsufficientGas { needed_gas_est, .. } => "Insufficient gas (need est. "@
            + needed_gas_est@ + ")"@,
        DriverStatusProperty::InsufficientToken { needed_token_est, .. } => "Insufficient token (need est. "@
            + needed_token_est@ + ")"@,
        DriverStatusProperty::InvalidChainId { chain_id, .. } => "Invalid Chain-Id ("@ + int_text(chain_id as int)
            + ")"@,
        DriverStatusProperty::RpcError { network, .. } => "Unreliable "@ + network@ + " RPC endpoints"@,
        DriverStatusProperty::TxStuck { network, .. } => "Tx stuck on "@ + network@,
    }
}

pub fn driver_issue(p: &DriverStatusProperty) -> (r: String)
    ensures
        r@ == issue_text(*p),
{
    match p {
        DriverStatusProperty::CantSign { address, .. } => concat("Can't sign ", address.as_str()),
        DriverStatusProperty::InsufficientGas { needed_gas_est, .. } => concat3(
            "Insufficient gas (need est. ",
            needed_gas_est.as_str(),
            ")",
        ),
        DriverStatusProperty::InsufficientToken { needed_token_est, .. } => concat3(
            "Insufficient token (need est. ",
            needed_token_est.as_str(),
            ")",
        ),
        DriverStatusProperty::InvalidChainId { chain_id, .. } => {
            let c = integer_text(*chain_id);
            concat3("Invalid Chain-Id (", c.as_str(), ")")
        },
        DriverStatusProperty::RpcError { network, .. } => concat3("Unreliable ", network.as_str(), " RPC endpoints"),
        DriverStatusProperty::TxStuck { network, .. } => concat("Tx stuck on ", network.as_str()),
    }
}

/// The header of the driver status table.
pub fn driver_status_header(driver: &str, has_issues: bool) -> (r: String)
    ensures
        r@ == "Status of the "@ + driver@ + " payment driver"@ + (if has_issues { ""@ } else { "\nDriver Status: Ok"@ }),
{
    let mut s = concat3("Status of the ", driver, " payment driver");
    if !has_issues {
        s.append("\nDriver Status: Ok");
    } else {
        proof {
            reveal_strlit("");
            assert(s@ + ""@ =~= s@);
        }
    }
    s
}

/// The paragraph on one driver problem in the account status header; `gas_currency` is the
/// currency the gas is paid in, `token` the payment token.
pub open spec fn status_note(p: DriverStatusProperty, gas_currency: Seq<char>, token: Seq<char>) -> Seq<char> {
    let network = match p {
        DriverStatusProperty::CantSign { network, .. } => network@,
        DriverStatusProperty::InsufficientGas { network, .. } => network@,
        DriverStatusProperty::InsufficientToken { network, .. } => network@,
        DriverStatusProperty::RpcError { network, .. } => network@,
        DriverStatusProperty::TxStuck { network, .. } => network@,
        DriverStatusProperty::InvalidChainId { .. } => "unknown network"@,
    };
    "Network:"@ + network + " - "@ + match p {
        DriverStatusProperty::CantSign { address, .. } => "Outstanding payments for address "@ + address@
            + " cannot be signed. Is the relevant identity locked?\n"@,
        DriverStatusProperty::InsufficientGas { needed_gas_est, .. } =>
            "Not enough gas to send any more transactions. To send out all scheduled transactions additionally "@
            + needed_gas_est@ + gas_currency + " is needed.\n"@,
        DriverStatusProperty::InsufficientToken { needed_token_est, .. } =>
            "Not enough token to send any more transactions. To send out all scheduled transactions approximately "@
            + needed_token_est@ + token + " is needed.\n"@,
        DriverStatusProperty::InvalidChainId { chain_id, .. } => "Scheduled transactions on chain with id = "@
            + int_text(chain_id as int) + ", but no such chain is configured.\n"@,
        DriverStatusProperty::RpcError { network, .. } => "RPC endpoints configured for "@ + network@
            + " are unreliable. Consider changing them.\n"@,
        DriverStatusProperty::TxStuck { .. } => "Sent transactions are stuck. Consider increasing max fee per gas.\n"@,
    }
}

pub fn driver_status_note(p: &DriverStatusProperty, gas_currency: &str, token: &str) -> (r: String)
    ensures
        r@ == status_note(*p, gas_currency@, token@),
{
    let network = match p {
        DriverStatusProperty::CantSign { network, .. } => network.clone(),
        DriverStatusProperty::InsufficientGas { network, .. } => network.clone(),
        DriverStatusProperty::InsufficientToken { network, .. } => network.clone(),
        DriverStatusProperty::RpcError { network, .. } => network.clone(),
        DriverStatusProperty::TxStuck { network, .. } => network.clone(),
        DriverStatusProperty::InvalidChainId { .. } => "unknown network".to_string(),
    };
    let mut s = concat3("Network:", network.as_str(), " - ");
    match p {
        DriverStatusProperty::CantSign { address, .. } => {
            s.append("Outstanding payments for address ");
            s.append(address.as_str());
            s.append(" cannot be signed. Is the relevant identity locked?\n");
        },
        DriverStatusProperty::InsufficientGas { needed_gas_est, .. } => {
            s.append("Not enough gas to send any more transactions. To send out all scheduled transactions additionally ");
            s.append(needed_gas_est.as_str());
            s.append(gas_currency);
            s.append(" is needed.\n");
        },
        DriverStatusProperty::InsufficientToken { needed_token_est, .. } => {
            s.append("Not enough token to send any more transactions. To send out all scheduled transactions approximately ");
            s.append(needed_token_est.as_str());
            s.append(token);
            s.append(" is needed.\n");
        },
        DriverStatusProperty::InvalidChainId { chain_id, .. } => {
            s.append("Scheduled transactions on chain with id = ");
            let c = integer_text(*chain_id);
            s.append(c.as_str());
            s.append(", but no such chain is configured.\n");
        },
        DriverStatusProperty::RpcError { network, .. } => {
            s.append("RPC endpoints configured for ");
            s.append(network.as_str());
            s.append(" are unreliable. Consider changing them.\n");
        },
        DriverStatusProperty::TxStuck { .. } => {
            s.append("Sent transactions are stuck. Consider increasing max fee per gas.\n");
        },
    }
    proof {
        assert(s@ =~= status_note(*p, gas_currency@, token@));
    }
    s
}

/// The header of the account status: the account, then either that the driver is fine or
/// a paragraph per problem it reports.
pub open spec fn status_header_text(address: Seq<char>, props: Seq<DriverStatusProperty>, gas_currency: Seq<char>, token: Seq<char>) -> Seq<char>
    decreases props.len(),
{
    if props.len() == 0 {
        "\nStatus for account: "@ + address + "\n"@ + "Payment Driver status: OK\n"@
    } else {
        notes_text(address, props, gas_currency, token)
    }
}

pub open spec fn notes_text(address: Seq<char>, props: Seq<DriverStatusProperty>, gas_currency: Seq<char>, token: Seq<char>) -> Seq<char>
    decreases props.len(),
{
    if props.len() == 0 {
        "\nStatus for account: "@ + address + "\n"@ + "\nPayment Driver status:\n"@
    } else {
        notes_text(address, props.drop_last(), gas_currency, token) + status_note(props.last(), gas_currency, token)
    }
}

pub fn status_header(address: &str, props: &Vec<DriverStatusProperty>, gas_currency: &str, token: &str) -> (r: String)
    ensures
        r@ == status_header_text(address@, props@, gas_currency@, token@),
{
    let mut s = concat3("\nStatus for account: ", address, "\n");
    if props.len() == 0 {
        s.append("Payment Driver status: OK\n");
        return s;
    }
    s.append("\nPayment Driver status:\n");
    let mut i: usize = 0;
    proof {
        assert(props@.take(0) =~= Seq::<DriverStatusProperty>::empty());
    }
    while i < props.len()
        invariant
            0 <= i <= props@.len(),
            s@ == notes_text(address@, props@.take(i as int), gas_currency@, token@),
        decreases props@.len() - i,
    {
        proof {
            assert(props@.take(i + 1).drop_last() =~= props@.take(i as int));
            assert(props@.take(i + 1).last() == props@[i as int]);
        }
        let note = driver_status_note(&props[i], gas_currency, token);
        s.append(note.as_str());
        i = i + 1;
    }
    proof {
        assert(props@.take(i as int) =~= props@);
    }
    s
}

/// Totals of an account's payments in one direction, by state, in units of 10^-18.
#[derive(Debug)]
pub struct StatusTotals {
    pub requested: i128,
    pub accepted: i128,
    pub confirmed: i128,
}

/// The gas an account holds, in units of 10^-18 of the currency with this short name.
#[derive(Debug)]
pub struct GasDetails {
    pub balance: i128,
    pub currency_short_name: String,
}

/// What the payment service reports of an account on a platform.
#[derive(Debug)]
pub struct AccountStatus {
    pub amount: i128,
    pub reserved: i128,
    pub outgoing: StatusTotals,
    pub incoming: StatusTotals,
    pub driver: String,
    pub network: String,
    pub token: String,
    pub gas: Option<GasDetails>,
}

/// An amount as the status shows it: in full, or cut to four places.
pub open spec fn shown_amount(units: int, precise: bool) -> Seq<char> {
    if precise {
        spec_units_text(units)
    } else {
        spec_units_text4(units)
    }
}

fn shown_amount_exec(units: i128, precise: bool) -> (r: String)
    ensures
        r@ == shown_amount(units as int, precise),
{
    if precise {
        amount_to_string(units)
    } else {
        amount_to_string4(units)
    }
}

/// An amount in full, followed by its currency.
pub open spec fn with_unit(units: int, unit: Seq<char>) -> Seq<char> {
    spec_units_text(units) + " "@ + unit
}

fn with_unit_exec(units: i128, unit: &str) -> (r: String)
    ensures
        r@ == with_unit(units as int, unit@),
{
    let a = amount_to_string(units);
    concat3(a.as_str(), " ", unit)
}

/// The gas cell of the status: the balance and its currency, or `N/A`.
pub open spec fn gas_info_text(gas: Option<GasDetails>, precise: bool) -> Seq<char> {
    match gas {
        Some(g) => shown_amount(g.balance as int, precise) + " "@ + g.currency_short_name@,
        None => "N/A"@,
    }
}

/// The currency that gas is counted in: the one reported, else `ETH`.
pub open spec fn gas_currency(gas: Option<GasDetails>) -> Seq<char> {
    match gas {
        Some(g) => g.currency_short_name@,
        None => "ETH"@,
    }
}

/// The rows of the status table: the platform's parts, the amount held and reserved, and
/// the incoming and outgoing totals that are accepted, confirmed and requested.
pub open spec fn status_rows(s: AccountStatus, precise: bool) -> Seq<Seq<Seq<char>>> {
    let t = s.token@;
    seq![
        seq![
            "driver: "@ + s.driver@,
            shown_amount(s.amount as int, precise) + " "@ + t,
            with_unit(s.reserved as int, t),
            "accepted"@,
            with_unit(s.incoming.accepted as int, t),
            with_unit(s.outgoing.accepted as int, t),
            gas_info_text(s.gas, precise),
        ],
        seq![
            "network: "@ + s.network@,
            ""@,
            ""@,
            "confirmed"@,
            with_unit(s.incoming.confirmed as int, t),
            with_unit(s.outgoing.confirmed as int, t),
            ""@,
        ],
        seq![
            "token: "@ + t,
            ""@,
            ""@,
            "requested"@,
            with_unit(s.incoming.requested as int, t),
            with_unit(s.outgoing.requested as int, t),
            ""@,
        ],
    ]
}

/// The status of the account at `address`: the header with what the driver reports, and a
/// row per state of the payments; amounts held are cut to four places unless `precise`.
pub fn status_table(address: &str, status: &AccountStatus, props: &Vec<DriverStatusProperty>, precise: bool) -> (r:
    Table)
    ensures
        r.header@ == status_header_text(address@, props@, gas_currency(status.gas), status.token@),
        texts(r.columns@) == seq![
            "platform"@,
            "total amount"@,
            "reserved"@,
            "amount"@,
            "incoming"@,
            "outgoing"@,
            "gas"@,
        ],
        r.rows@.len() == 3,
        forall|i: int| 0 <= i < 3 ==> texts((#[trigger] r.rows@[i])@) == status_rows(*status, precise)[i],
{
    let t = status.token.as_str();
    let gas_info = match &status.gas {
        Some(g) => {
            let b = shown_amount_exec(g.balance, precise);
            concat3(b.as_str(), " ", g.currency_short_name.as_str())
        },
        None => "N/A".to_string(),
    };
    let currency = match &status.gas {
        Some(g) => g.currency_short_name.clone(),
        None => "ETH".to_string(),
    };
    let amount = shown_amount_exec(status.amount, precise);
    let first = vec![
        concat("driver: ", status.driver.as_str()),
        concat3(amount.as_str(), " ", t),
        with_unit_exec(status.reserved, t),
        "accepted".to_string(),
        with_unit_exec(status.incoming.accepted, t),
        with_unit_exec(status.outgoing.accepted, t),
        gas_info,
    ];
    let second = vec![
        concat("network: ", status.network.as_str()),
        "".to_string(),
        "".to_string(),
        "confirmed".to_string(),
        with_unit_exec(status.incoming.confirmed, t),
        with_unit_exec(status.outgoing.confirmed, t),
        "".to_string(),
    ];
    let third = vec![
        concat("token: ", t),
        "".to_string(),
        "".to_string(),
        "requested".to_string(),
        with_unit_exec(status.incoming.requested, t),
        with_unit_exec(status.outgoing.requested, t),
        "".to_string(),
    ];
    let columns = vec![
        "platform".to_string(),
        "total amount".to_string(),
        "reserved".to_string(),
        "amount".to_string(),
        "incoming".to_string(),
        "outgoing".to_string(),
        "gas".to_string(),
    ];
    let header = status_header(address, props, currency.as_str(), t);
    let ghost rows_spec = status_rows(*status, precise);
    proof {
        assert(texts(first@) =~= rows_spec[0]);
        assert(texts(second@) =~= rows_spec[1]);
        assert(texts(third@) =~= rows_spec[2]);
        assert(texts(columns@) =~= seq![
            "platform"@,
            "total amount"@,
            "reserved"@,
            "amount"@,
            "incoming"@,
            "outgoing"@,
            "gas"@,
        ]);
    }
    Table { header, columns, rows: vec![first, second, third] }
}

/// An account as the payment service lists it.
#[derive(Debug)]
pub struct AccountEntry {
    pub address: String,
    pub driver: String,
    pub network: String,
    pub token: String,
    pub send: bool,
    pub receive: bool,
}

pub open spec fn bool_text(b: bool) -> Seq<char> {
    if b {
        "true"@
    } else {
        "false"@
    }
}

/// The row of an account: its address, driver, network and token, and whether it sends and
/// receives.
pub open spec fn account_row(a: AccountEntry) -> Seq<Seq<char>> {
    seq![a.address@, a.driver@, a.network@, a.token@, bool_text(a.send), bool_text(a.receive)]
}

fn bool_text_exec(b: bool) -> (r: String)
    ensures
        r@ == bool_text(b),
{
    if b {
        "true".to_string()
    } else {
        "false".to_string()
    }
}

/// The table of the node's accounts, a row per account in the order given, with no header.
pub fn accounts_table(accounts: &Vec<AccountEntry>) -> (r: Table)
    ensures
        r.header@ == ""@,
        texts(r.columns@) == seq!["address"@, "driver"@, "network"@, "token"@, "send"@, "recv"@],
        r.rows@.len() == accounts@.len(),
        forall|i: int| 0 <= i < accounts@.len() ==> texts((#[trigger] r.rows@[i])@) == account_row(accounts@[i]),
{
    let mut rows: Vec<Vec<String>> = Vec::new();
    let mut i: usize = 0;
    while i < accounts.len()
        invariant
            0 <= i <= accounts@.len(),
            rows@.len() == i,
            forall|k: int| 0 <= k < i ==> texts((#[trigger] rows@[k])@) == account_row(accounts@[k]),
        decreases accounts@.len() - i,
    {
        let a = &accounts[i];
        let row = vec![
            a.address.clone(),
            a.driver.clone(),
            a.network.clone(),
            a.token.clone(),
            bool_text_exec(a.send),
            bool_text_exec(a.receive),
        ];
        proof {
            assert(texts(row@) =~= account_row(accounts@[i as int]));
        }
        rows.push(row);
        i = i + 1;
    }
    let columns = vec![
        "address".to_string(),
        "driver".to_string(),
        "network".to_string(),
        "token".to_string(),
        "send".to_string(),
        "recv".to_string(),
    ];
    proof {
        assert(texts(columns@) =~= seq!["address"@, "driver"@, "network"@, "token"@, "send"@, "recv"@]);
    }
    Table { header: "".to_string(), columns, rows }
}

/// The lower-case form of `s` by Unicode's rules, as `str::to_lowercase` gives it.
pub uninterp spec fn spec_lowercase(s: Seq<char>) -> Seq<char>;

/// `s` with the letters `A` to `Z` in lower case.
pub open spec fn ascii_lower(s: Seq<char>) -> Seq<char> {
    Seq::new(
        s.len(),
        |i: int|
            if 65 <= s[i] as int <= 90 {
                ((s[i] as int) + 32) as char
            } else {
                s[i]
            },
    )
}

/// Calls `str::to_lowercase`, which on a text of ASCII characters only lowers `A` to `Z`.
#[verifier::external_body]
fn lowercase(s: &str) -> (r: String)
    ensures
        r@ == spec_lowercase(s@),
        (forall|i: int| 0 <= i < s@.len() ==> (s@[i] as int) < 128) ==> r@ == ascii_lower(s@),
{
    s.to_lowercase()
}

/// The platform a process command works on: `driver-network-token` in lower case.
pub fn process_platform(driver: &str, network: &str, token: &str) -> (r: String)
    ensures
        r@ == spec_lowercase(driver@ + "-"@ + network@ + "-"@ + token@),
        ({
            let t = driver@ + "-"@ + network@ + "-"@ + token@;
            (forall|i: int| 0 <= i < t.len() ==> (t[i] as int) < 128) ==> r@ == ascii_lower(t)
        }),
{
    let mut s = concat3(driver, "-", network);
    s.append("-");
    s.append(token);
    lowercase(s.as_str())
}

/// What the command that funds an account does on a network.
#[derive(Debug)]
pub enum FundDecision {
    /// The network can be funded neither by a faucet nor through the onboarding portal.
    Unsupported,
    /// Funds come from the onboarding portal, at this address.
    Onboarding(String),
    /// Funds are asked of the network's faucet.
    Faucet,
}

/// Whether funds for `network` come from the onboarding portal: the production networks.
pub open spec fn onboarding_network(network: NetworkName) -> bool {
    network == NetworkName::Polygon || network == NetworkName::Mainnet
}

/// Decides how the account at `address` is funded on `network`, where `fundable` tells
/// whether the network has a faucet: the onboarding portal for the production networks,
/// the faucet for one that has it, and nothing for the others.
pub fn fund_decision(network: NetworkName, fundable: bool, address: &str) -> (r: FundDecision)
    ensures
        !fundable && !onboarding_network(network) ==> r is Unsupported,
        onboarding_network(network) ==> (r matches FundDecision::Onboarding(url) && url@
            == "https://glm.golem.network/#/onboarding/budget?yagnaAddress="@ + address@ + "&network="@
            + network_text(network)),
        fundable && !onboarding_network(network) ==> r is Faucet,
{
    let onboarding = match network {
        NetworkName::Polygon | NetworkName::Mainnet => true,
        _ => false,
    };
    if !fundable && !onboarding {
        FundDecision::Unsupported
    } else if onboarding {
        let head = concat3(
            "https://glm.golem.network/#/onboarding/budget?yagnaAddress=",
            address,
            "&network=",
        );
        let n = network.to_text();
        FundDecision::Onboarding(concat(head.as_str(), n.as_str()))
    } else {
        FundDecision::Faucet
    }
}

/// A gas setting given on the command line: none where it is empty or `auto`.
pub fn gas_setting(s: &str) -> (r: Option<String>)
    ensures
        (s@.len() == 0 || s@ == "auto"@) ==> r is None,
        !(s@.len() == 0 || s@ == "auto"@) ==> (r matches Some(x) && x@ == s@),
{
    let t = s.to_string();
    if t.as_str().unicode_len() == 0 || text_eq(s, "auto") {
        None
    } else {
        Some(t)
    }
}


/// How reading a `u32` from text fares, as `str::parse` reads it, over the digits `d`:
/// the value, or the failure at the first character that is no digit (`true`) or that
/// makes the value too large (`false`).
pub open spec fn u32_scan(d: Seq<char>) -> Result<int, bool>
    decreases d.len(),
{
    if d.len() == 0 {
        Ok(0)
    } else {
        match u32_scan(d.drop_last()) {
            Err(e) => Err(e),
            Ok(v) => {
                let c = d.last();
                if !('0' <= c && c <= '9') {
                    Err(true)
                } else if v * 10 + (c as int - '0' as int) > u32::MAX {
                    Err(false)
                } else {
                    Ok(v * 10 + (c as int - '0' as int))
                }
            },
        }
    }
}

/// The digits of a `u32` text: after a leading `+` where one is followed by more.
pub open spec fn u32_digits(s: Seq<char>) -> Seq<char> {
    if s.len() > 1 && s[0] == '+' {
        s.subrange(1, s.len() as int)
    } else {
        s
    }
}

/// What `str::parse::<u32>` gives for `s`: the value, or the message of its failure.
pub open spec fn u32_text(s: Seq<char>) -> Result<int, Seq<char>> {
    if s.len() == 0 {
        Err("cannot parse integer from empty string"@)
    } else {
        match u32_scan(u32_digits(s)) {
            Ok(v) => Ok(v),
            Err(true) => Err("invalid digit found in string"@),
            Err(false) => Err("number too large to fit in target type"@),
        }
    }
}

/// Reads a `u32` as `str::parse` does: decimal digits after an optional `+`.
pub fn parse_u32_text(s: &str) -> (r: Result<u32, String>)
    ensures
        match u32_text(s@) {
            Ok(v) => r matches Ok(x) && x == v,
            Err(m) => r matches Err(e) && e@ == m,
        },
{
    let n = s.unicode_len();
    if n == 0 {
        return Err("cannot parse integer from empty string".to_string());
    }
    let start: usize = if n > 1 && s.get_char(0) == '+' {
        1
    } else {
        0
    };
    let ghost d = u32_digits(s@);
    proof {
        assert(d =~= s@.subrange(start as int, n as int));
    }
    let mut value: u64 = 0;
    let mut i: usize = start;
    proof {
        assert(d.take(0) =~= Seq::<char>::empty());
    }
    while i < n
        invariant
            n == s@.len(),
            start <= i <= n,
            d == s@.subrange(start as int, n as int),
            d == u32_digits(s@),
            s@.len() > 0,
            u32_scan(d.take(i - start)) == Ok::<int, bool>(value as int),
            value <= u32::MAX,
        decreases n - i,
    {
        let c = s.get_char(i);
        proof {
            assert(d.take(i - start + 1).drop_last() =~= d.take(i - start));
            assert(d.take(i - start + 1).last() == c);
        }
        if !('0' <= c && c <= '9') {
            proof {
                assert(u32_scan(d.take(i - start + 1)) == Err::<int, bool>(true));
                lemma_u32_scan_fails(d, (i - start + 1) as int);
                assert(u32_scan(u32_digits(s@)) == Err::<int, bool>(true));
            }
            return Err("invalid digit found in string".to_string());
        }
        let digit = (c as u32 - '0' as u32) as u64;
        let next = value * 10 + digit;
        if next > 0xffff_ffff {
            proof {
                assert(u32_scan(d.take(i - start + 1)) == Err::<int, bool>(false));
                lemma_u32_scan_fails(d, (i - start + 1) as int);
                assert(u32_scan(u32_digits(s@)) == Err::<int, bool>(false));
            }
            return Err("number too large to fit in target type".to_string());
        }
        value = next;
        i = i + 1;
    }
    proof {
        assert(d.take(i - start) =~= d);
    }
    Ok(value as u32)
}

/// A failure within the first `k` digits is the failure of all of them.
proof fn lemma_u32_scan_fails(d: Seq<char>, k: int)
    requires
        0 <= k <= d.len(),
        u32_scan(d.take(k)) is Err,
    ensures
        u32_scan(d) == u32_scan(d.take(k)),
    decreases d.len() - k,
{
    if k < d.len() {
        assert(d.take(k + 1).drop_last() =~= d.take(k));
        lemma_u32_scan_fails(d, k + 1);
    } else {
        assert(d.take(k) =~= d);
    }
}

/// A gas or amount setting left to the driver: empty or `auto`.
pub open spec fn is_auto(s: Seq<char>) -> bool {
    s.len() == 0 || s == "auto"@
}

fn is_auto_exec(s: &str) -> (r: bool)
    ensures
        r == is_auto(s@),
{
    s.unicode_len() == 0 || text_eq(s, "auto")
}

/// The message refusing `text` as the value of `what`.
pub open spec fn invalid_text(what: Seq<char>, text: Seq<char>) -> Seq<char> {
    "invalid "@ + what + ": "@ + text
}

/// What an amount given on the command line is, in units of 10^-18, or why it is refused:
/// a text that is no decimal number, that does not fit an `i128` count, or whose exponent
/// is longer than four characters (which `BigDecimal` could not rescale in bounds) is
/// refused.
pub open spec fn cli_amount(what: Seq<char>, s: Seq<char>) -> Result<int, Seq<char>> {
    if !decimal_text_fits(s) {
        Err(invalid_text(what, s))
    } else {
        match spec_decimal_units(s) {
            Some(v) => Ok(v),
            None => Err(invalid_text(what, s)),
        }
    }
}

/// Reads an amount given on the command line (the amount to transfer, to enter or to exit)
/// in units of 10^-18.
pub fn parse_cli_amount(what: &str, s: &str) -> (r: Result<i128, String>)
    ensures
        match cli_amount(what@, s@) {
            Ok(v) => r matches Ok(x) && x == v,
            Err(m) => r matches Err(e) && e@ == m,
        },
{
    let parsed = if decimal_text_fits_exec(s) {
        parse_amount_units(s)
    } else {
        None
    };
    match parsed {
        Some(v) => Ok(v),
        None => {
            let mut m = concat3("invalid ", what, ": ");
            m.append(s);
            Err(m)
        },
    }
}

/// A transfer asked for on the command line: the amount, and the gas settings where they
/// are not left to the driver (prices in units of 10^-18 Gwei).
#[derive(Debug)]
pub struct TransferRequest {
    pub amount: i128,
    pub gas_price: Option<i128>,
    pub max_gas_price: Option<i128>,
    pub gas_limit: Option<u32>,
}

/// A gas price setting: none where it is left to the driver.
pub open spec fn price_setting(what: Seq<char>, s: Seq<char>) -> Result<Option<int>, Seq<char>> {
    if is_auto(s) {
        Ok(None)
    } else {
        match cli_amount(what, s) {
            Ok(v) => Ok(Some(v)),
            Err(m) => Err(m),
        }
    }
}

/// A gas limit setting: none where it is left to the driver.
pub open spec fn limit_setting(s: Seq<char>) -> Result<Option<int>, Seq<char>> {
    if is_auto(s) {
        Ok(None)
    } else {
        match u32_text(s) {
            Ok(v) => Ok(Some(v)),
            Err(m) => Err(m),
        }
    }
}

/// What a transfer request reads as: its fields, or the first refusal, in the order
/// amount, gas price, maximum gas price, gas limit.
pub open spec fn transfer_request_spec(
    amount: Seq<char>,
    gas_price: Seq<char>,
    max_gas_price: Seq<char>,
    gas_limit: Seq<char>,
) -> Result<(int, Option<int>, Option<int>, Option<int>), Seq<char>> {
    match cli_amount("amount"@, amount) {
        Err(m) => Err(m),
        Ok(a) => match price_setting("gas price"@, gas_price) {
            Err(m) => Err(m),
            Ok(g) => match price_setting("max gas price"@, max_gas_price) {
                Err(m) => Err(m),
                Ok(mg) => match limit_setting(gas_limit) {
                    Err(m) => Err(m),
                    Ok(l) => Ok((a, g, mg, l)),
                },
            },
        },
    }
}

pub open spec fn opt_int<T: Integer>(o: Option<T>) -> Option<int> {
    match o {
        Some(v) => Some(v as int),
        None => None,
    }
}

/// Reads the amount and gas settings of a transfer given on the command line.
pub fn transfer_request(amount: &str, gas_price: &str, max_gas_price: &str, gas_limit: &str) -> (r:
    Result<TransferRequest, String>)
    ensures
        match transfer_request_spec(amount@, gas_price@, max_gas_price@, gas_limit@) {
            Ok((a, g, mg, l)) => r matches Ok(t) && t.amount == a && opt_int(t.gas_price) == g
                && opt_int(t.max_gas_price) == mg && opt_int(t.gas_limit) == l,
            Err(m) => r matches Err(e) && e@ == m,
        },
{
    proof {
        reveal_strlit("amount");
        reveal_strlit("gas price");
        reveal_strlit("max gas price");
    }
    let amount = match parse_cli_amount("amount", amount) {
        Ok(v) => v,
        Err(e) => return Err(e),
    };
    let gas_price = if is_auto_exec(gas_price) {
        None
    } else {
        match parse_cli_amount("gas price", gas_price) {
            Ok(v) => Some(v),
            Err(e) => return Err(e),
        }
    };
    let max_gas_price = if is_auto_exec(max_gas_price) {
        None
    } else {
        match parse_cli_amount("max gas price", max_gas_price) {
            Ok(v) => Some(v),
            Err(e) => return Err(e),
        }
    };
    let gas_limit = if is_auto_exec(gas_limit) {
        None
    } else {
        match parse_u32_text(gas_limit) {
            Ok(v) => Some(v),
            Err(e) => return Err(e),
        }
    };
    Ok(TransferRequest { amount, gas_price, max_gas_price, gas_limit })
}

} // verus!
