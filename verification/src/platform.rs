//! Payment platforms: a driver, a network and a token, written `driver-network-token`.
use vstd::prelude::*;
use crate::split::{split_on, split_text, views};
use crate::text::{concat, concat3, text_eq};

verus! {

/// A payment driver.
#[derive(Clone, Copy, Debug, PartialEq, Eq, Structural)]
pub enum DriverName {
    Erc20,
}

pub open spec fn driver_text(d: DriverName) -> Seq<char> {
    match d {
        DriverName::Erc20 => "erc20"@,
    }
}

impl DriverName {
    pub fn to_text(&self) -> (r: String)
        ensures
            r@ == driver_text(*self),
    {
        match self {
            DriverName::Erc20 => "erc20".to_string(),
        }
    }

    /// Reads a driver name; `None` for any other text.
    pub fn from_text(s: &str) -> (r: Option<DriverName>)
        ensures
            r matches Some(d) ==> driver_text(d) == s@,
            r is None ==> forall|d: DriverName| driver_text(d) != s@,
    {
        if text_eq(s, "erc20") {
            Some(DriverName::Erc20)
        } else {
            None
        }
    }
}

/// A blockchain network that a driver can pay on.
#[derive(Clone, Copy, Debug, PartialEq, Eq, Structural)]
pub enum NetworkName {
    Mainnet,
    Rinkeby,
    Goerli,
    Mumbai,
    Polygon,
    Yatestnet,
    Sepolia,
    Holesky,
    Amoy,
}

pub open spec fn network_text(n: NetworkName) -> Seq<char> {
    match n {
        NetworkName::Mainnet => "mainnet"@,
        NetworkName::Rinkeby => "rinkeby"@,
        NetworkName::Goerli => "goerli"@,
        NetworkName::Mumbai => "mumbai"@,
        NetworkName::Polygon => "polygon"@,
        NetworkName::Yatestnet => "yatestnet"@,
        NetworkName::Sepolia => "sepolia"@,
        NetworkName::Holesky => "holesky"@,
        NetworkName::Amoy => "amoy"@,
    }
}

impl NetworkName {
    pub fn to_text(&self) -> (r: String)
        ensures
            r@ == network_text(*self),
    {
        match self {
            NetworkName::Mainnet => "mainnet".to_string(),
            NetworkName::Rinkeby => "rinkeby".to_string(),
            NetworkName::Goerli => "goerli".to_string(),
            NetworkName::Mumbai => "mumbai".to_string(),
            NetworkName::Polygon => "polygon".to_string(),
            NetworkName::Yatestnet => "yatestnet".to_string(),
            NetworkName::Sepolia => "sepolia".to_string(),
            NetworkName::Holesky => "holesky".to_string(),
            NetworkName::Amoy => "amoy".to_string(),
        }
    }

    /// Reads a network name; `None` for any other text.
    pub fn from_text(s: &str) -> (r: Option<NetworkName>)
        ensures
            r matches Some(n) ==> network_text(n) == s@,
            r is None ==> forall|n: NetworkName| network_text(n) != s@,
    {
        if text_eq(s, "mainnet") {
            Some(NetworkName::Mainnet)
        } else if text_eq(s, "rinkeby") {
            Some(NetworkName::Rinkeby)
        } else if text_eq(s, "goerli") {
            Some(NetworkName::Goerli)
        } else if text_eq(s, "mumbai") {
            Some(NetworkName::Mumbai)
        } else if text_eq(s, "polygon") {
            Some(NetworkName::Polygon)
        } else if text_eq(s, "yatestnet") {
            Some(NetworkName::Yatestnet)
        } else if text_eq(s, "sepolia") {
            Some(NetworkName::Sepolia)
        } else if text_eq(s, "holesky") {
            Some(NetworkName::Holesky)
        } else if text_eq(s, "amoy") {
            Some(NetworkName::Amoy)
        } else {
            None
        }
    }
}

/// The network used where a request names none and asks for test tokens.
pub const DEFAULT_TESTNET_NETWORK: NetworkName = NetworkName::Holesky;

/// The network used where a request asks for `glm` without naming a network.
pub const DEFAULT_MAINNET_NETWORK: NetworkName = NetworkName::Polygon;

/// The driver used where a request names none.
pub const DEFAULT_PAYMENT_DRIVER: DriverName = DriverName::Erc20;

/// The token that a network pays in: `glm` on the production networks, `tglm` elsewhere.
pub open spec fn default_token_text(n: NetworkName) -> Seq<char> {
    if n == NetworkName::Mainnet || n == NetworkName::Polygon {
        "glm"@
    } else {
        "tglm"@
    }
}

/// The name of a payment token.
#[derive(Debug)]
pub struct TokenName(pub String);

pub open spec fn uppercase_token_text(token: Seq<char>) -> Seq<char> {
    "Uppercase token names are not supported. Use lowercase glm or tglm instead of "@ + token
}

pub open spec fn token_mismatch_text(
    token: Seq<char>,
    expected: Seq<char>,
    d: DriverName,
    n: NetworkName,
) -> Seq<char> {
    "Token "@ + token + " does not match expected token "@ + expected + " for driver "@
        + driver_text(d) + " and network "@ + network_text(n)
        + ". Note that for test networks expected token name is tglm and for production networks it is glm"@
}

/// What reading `token` for `d` and `n` gives: the token, or the message refusing it.
pub open spec fn token_from_string_spec(
    d: DriverName,
    n: NetworkName,
    token: Seq<char>,
) -> Result<Seq<char>, Seq<char>> {
    if token == "GLM"@ || token == "tGLM"@ {
        Err(uppercase_token_text(token))
    } else if token != default_token_text(n) {
        Err(token_mismatch_text(token, default_token_text(n), d, n))
    } else {
        Ok(token)
    }
}

fn uppercase_token_error(token: &str) -> (r: String)
    ensures
        r@ == uppercase_token_text(token@),
{
    concat("Uppercase token names are not supported. Use lowercase glm or tglm instead of ", token)
}

impl TokenName {
    /// The token that `network` pays in.
    pub fn default(driver: &DriverName, network: &NetworkName) -> (r: TokenName)
        ensures
            r.0@ == default_token_text(*network),
    {
        match network {
            NetworkName::Mainnet | NetworkName::Polygon => TokenName("glm".to_string()),
            _ => TokenName("tglm".to_string()),
        }
    }

    /// Accepts `token` where it is the one that `network` pays in.
    pub fn from_token_string(driver: &DriverName, network: &NetworkName, token: &str) -> (r: Result<
        TokenName,
        String,
    >)
        ensures
            match token_from_string_spec(*driver, *network, token@) {
                Ok(t) => r matches Ok(tn) && tn.0@ == t,
                Err(m) => r matches Err(e) && e@ == m,
            },
    {
        if text_eq(token, "GLM") || text_eq(token, "tGLM") {
            return Err(uppercase_token_error(token));
        }
        let expected = TokenName::default(driver, network);
        if !text_eq(token, expected.0.as_str()) {
            let head = concat3("Token ", token, " does not match expected token ");
            let d = driver.to_text();
            let n = network.to_text();
            let mid = concat3(expected.0.as_str(), " for driver ", d.as_str());
            let tail = concat3(
                " and network ",
                n.as_str(),
                ". Note that for test networks expected token name is tglm and for production networks it is glm",
            );
            let m = concat3(head.as_str(), mid.as_str(), tail.as_str());
            proof {
                assert(m@ =~= token_mismatch_text(token@, default_token_text(*network), *driver, *network));
            }
            return Err(m);
        }
        Ok(TokenName(token.to_string()))
    }

    pub fn to_text(&self) -> (r: String)
        ensures
            r@ == self.0@,
    {
        self.0.clone()
    }
}

/// What checking a network name gives: the network, or the message refusing it.
pub open spec fn validate_network_spec(s: Seq<char>) -> Result<NetworkName, Seq<char>> {
    if exists|n: NetworkName| network_text(n) == s {
        let n = choose|n: NetworkName| network_text(n) == s;
        if n == NetworkName::Rinkeby {
            Err("Rinkeby is no longer supported"@)
        } else {
            Ok(n)
        }
    } else {
        Err("Invalid network name: "@ + s)
    }
}

proof fn lemma_network_text_injective(a: NetworkName, b: NetworkName)
    ensures
        network_text(a) == network_text(b) ==> a == b,
{
    reveal_strlit("mainnet");
    reveal_strlit("rinkeby");
    reveal_strlit("goerli");
    reveal_strlit("mumbai");
    reveal_strlit("polygon");
    reveal_strlit("yatestnet");
    reveal_strlit("sepolia");
    reveal_strlit("holesky");
    reveal_strlit("amoy");
    if network_text(a) == network_text(b) && a != b {
        let x = network_text(a);
        let y = network_text(b);
        assert(x.len() != y.len() || x[0] != y[0] || x[1] != y[1] || x[2] != y[2]);
    }
}

/// Reads a network that payments may still use.
pub fn validate_network(network: &str) -> (r: Result<NetworkName, String>)
    ensures
        match validate_network_spec(network@) {
            Ok(n) => r == Ok::<NetworkName, String>(n),
            Err(m) => r matches Err(e) && e@ == m,
        },
{
    match NetworkName::from_text(network) {
        Some(n) => {
            proof {
                let c = choose|x: NetworkName| network_text(x) == network@;
                lemma_network_text_injective(c, n);
            }
            match n {
                NetworkName::Rinkeby => Err("Rinkeby is no longer supported".to_string()),
                _ => Ok(n),
            }
        },
        None => Err(concat("Invalid network name: ", network)),
    }
}

/// What checking a driver name gives: the driver, or the message refusing it.
pub open spec fn validate_driver_spec(s: Seq<char>) -> Result<DriverName, Seq<char>> {
    if s == driver_text(DriverName::Erc20) {
        Ok(DriverName::Erc20)
    } else {
        Err("Invalid driver name "@ + s)
    }
}

/// Reads a driver name; every network takes every driver.
pub fn validate_driver(network: &NetworkName, driver: &str) -> (r: Result<DriverName, String>)
    ensures
        match validate_driver_spec(driver@) {
            Ok(d) => r == Ok::<DriverName, String>(d),
            Err(m) => r matches Err(e) && e@ == m,
        },
{
    match DriverName::from_text(driver) {
        Some(d) => Ok(d),
        None => Err(concat("Invalid driver name ", driver)),
    }
}

/// A driver, a network and a token, checked to belong together.
#[derive(Debug)]
pub struct PaymentPlatformTriple {
    pub driver: DriverName,
    pub network: NetworkName,
    pub token: TokenName,
}

/// A triple as plain values.
pub struct TripleView {
    pub driver: DriverName,
    pub network: NetworkName,
    pub token: Seq<char>,
}

impl View for PaymentPlatformTriple {
    type V = TripleView;

    open spec fn view(&self) -> TripleView {
        TripleView { driver: self.driver, network: self.network, token: self.token.0@ }
    }
}

pub open spec fn triple_of(d: DriverName, n: NetworkName, t: Seq<char>) -> TripleView {
    TripleView { driver: d, network: n, token: t }
}

/// The platform name `driver-network-token`.
pub open spec fn triple_text(t: TripleView) -> Seq<char> {
    driver_text(t.driver) + "-"@ + network_text(t.network) + "-"@ + t.token
}

pub open spec fn default_triple(n: NetworkName) -> TripleView {
    triple_of(DEFAULT_PAYMENT_DRIVER, n, default_token_text(n))
}

/// A payment platform as a request gives it: each part may be left out.
#[derive(Debug)]
pub struct PaymentPlatform {
    pub driver: Option<String>,
    pub network: Option<String>,
    pub token: Option<String>,
}

pub open spec fn opt_view(o: Option<String>) -> Option<Seq<char>> {
    match o {
        Some(s) => Some(s@),
        None => None,
    }
}

/// The network assumed where a request names none: the production one for `glm`, the
/// test one otherwise.
pub open spec fn network_or_default(network: Option<Seq<char>>, token: Option<Seq<char>>) -> Seq<
    char,
> {
    match network {
        Some(n) => n,
        None => match token {
            Some(t) => if t == "glm"@ {
                network_text(DEFAULT_MAINNET_NETWORK)
            } else {
                network_text(DEFAULT_TESTNET_NETWORK)
            },
            None => network_text(DEFAULT_TESTNET_NETWORK),
        },
    }
}

/// The platform that a request's platform object selects, or the message refusing it.
pub open spec fn platform_from_input_spec(
    driver: Option<Seq<char>>,
    network: Option<Seq<char>>,
    token: Option<Seq<char>>,
) -> Result<TripleView, Seq<char>> {
    if driver is None && network is None && token is None {
        Ok(default_triple(DEFAULT_TESTNET_NETWORK))
    } else if token is Some && network is None && driver is None {
        let t = token->0;
        if t == "GLM"@ || t == "tGLM"@ {
            Err(uppercase_token_text(t))
        } else if t == "glm"@ {
            Ok(default_triple(DEFAULT_MAINNET_NETWORK))
        } else if t == "tglm"@ {
            Ok(default_triple(DEFAULT_TESTNET_NETWORK))
        } else {
            Err("Only glm or tglm token values are accepted vs "@ + t + " provided"@)
        }
    } else {
        match validate_network_spec(network_or_default(network, token)) {
            Err(e) => Err("Validate network failed (1): "@ + e),
            Ok(n) => {
                let ds = match driver {
                    Some(d) => d,
                    None => driver_text(DEFAULT_PAYMENT_DRIVER),
                };
                match validate_driver_spec(ds) {
                    Err(e) => Err("Validate driver failed (1): "@ + e),
                    Ok(d) => match token {
                        Some(t) => match token_from_string_spec(d, n, t) {
                            Err(e) => Err("Validate token failed (1): "@ + e),
                            Ok(tk) => Ok(triple_of(d, n, tk)),
                        },
                        None => Ok(triple_of(d, n, default_token_text(n))),
                    },
                }
            },
        }
    }
}

/// The platform that a name `driver-network-token` selects, or the message refusing it.
pub open spec fn platform_from_str_spec(s: Seq<char>) -> Result<TripleView, Seq<char>> {
    let parts = split_on(s, '-');
    if parts.len() != 3 {
        Err("paymentPlatform must be of the form driver-network-token instead of "@ + s)
    } else {
        match validate_network_spec(parts[1]) {
            Err(e) => Err("Validate network failed (2): "@ + e),
            Ok(n) => match validate_driver_spec(parts[0]) {
                Err(e) => Err("Validate driver failed (2): "@ + e),
                Ok(d) => match token_from_string_spec(d, n, parts[2]) {
                    Err(e) => Err("Validate token failed (2): "@ + e),
                    Ok(t) => Ok(triple_of(d, n, t)),
                },
            },
        }
    }
}

pub open spec fn triple_result_matches(
    r: Result<PaymentPlatformTriple, String>,
    s: Result<TripleView, Seq<char>>,
) -> bool {
    match s {
        Ok(t) => r matches Ok(p) && p@ == t,
        Err(m) => r matches Err(e) && e@ == m,
    }
}

fn opt_text_eq(o: &Option<String>, lit: &str) -> (r: bool)
    ensures
        r == (o matches Some(s) && s@ == lit@),
{
    match o {
        Some(s) => text_eq(s.as_str(), lit),
        None => false,
    }
}

impl PaymentPlatformTriple {
    pub fn driver(&self) -> (r: &DriverName)
        ensures
            *r == self.driver,
    {
        &self.driver
    }

    pub fn network(&self) -> (r: &NetworkName)
        ensures
            *r == self.network,
    {
        &self.network
    }

    pub fn token(&self) -> (r: &TokenName)
        ensures
            r.0@ == self.token.0@,
    {
        &self.token
    }

    /// The default driver on the default test network, with its token.
    pub fn default_testnet() -> (r: Self)
        ensures
            r@ == default_triple(DEFAULT_TESTNET_NETWORK),
    {
        PaymentPlatformTriple {
            driver: DEFAULT_PAYMENT_DRIVER,
            network: DEFAULT_TESTNET_NETWORK,
            token: TokenName::default(&DEFAULT_PAYMENT_DRIVER, &DEFAULT_TESTNET_NETWORK),
        }
    }

    /// The default driver on the default production network, with its token.
    pub fn default_mainnet() -> (r: Self)
        ensures
            r@ == default_triple(DEFAULT_MAINNET_NETWORK),
    {
        PaymentPlatformTriple {
            driver: DEFAULT_PAYMENT_DRIVER,
            network: DEFAULT_MAINNET_NETWORK,
            token: TokenName::default(&DEFAULT_PAYMENT_DRIVER, &DEFAULT_MAINNET_NETWORK),
        }
    }

    /// The name `driver-network-token` of the platform.
    pub fn to_text(&self) -> (r: String)
        ensures
            r@ == triple_text(self@),
    {
        let d = self.driver.to_text();
        let n = self.network.to_text();
        let mut s = concat3(d.as_str(), "-", n.as_str());
        s.append("-");
        s.append(self.token.0.as_str());
        s
    }

    /// Selects a platform from a request's platform object, filling in what it leaves out.
    pub fn from_payment_platform_input(p: &PaymentPlatform) -> (r: Result<
        PaymentPlatformTriple,
        String,
    >)
        ensures
            triple_result_matches(
                r,
                platform_from_input_spec(opt_view(p.driver), opt_view(p.network), opt_view(p.token)),
            ),
    {
        if p.driver.is_none() && p.network.is_none() && p.token.is_none() {
            return Ok(Self::default_testnet());
        }
        if p.token.is_some() && p.network.is_none() && p.driver.is_none() {
            if opt_text_eq(&p.token, "GLM") || opt_text_eq(&p.token, "tGLM") {
                match &p.token {
                    Some(t) => {
                        return Err(uppercase_token_error(t.as_str()));
                    },
                    None => {},
                }
            }
            if opt_text_eq(&p.token, "glm") {
                return Ok(Self::default_mainnet());
            }
            if opt_text_eq(&p.token, "tglm") {
                return Ok(Self::default_testnet());
            }
            match &p.token {
                Some(t) => {
                    return Err(concat3(
                        "Only glm or tglm token values are accepted vs ",
                        t.as_str(),
                        " provided",
                    ));
                },
                None => {},
            }
        }
        let network_str = match &p.network {
            Some(n) => n.clone(),
            None => if opt_text_eq(&p.token, "glm") {
                DEFAULT_MAINNET_NETWORK.to_text()
            } else {
                DEFAULT_TESTNET_NETWORK.to_text()
            },
        };
        let network = match validate_network(network_str.as_str()) {
            Ok(n) => n,
            Err(e) => {
                return Err(concat("Validate network failed (1): ", e.as_str()));
            },
        };
        let driver_str = match &p.driver {
            Some(d) => d.clone(),
            None => DEFAULT_PAYMENT_DRIVER.to_text(),
        };
        let driver = match validate_driver(&network, driver_str.as_str()) {
            Ok(d) => d,
            Err(e) => {
                return Err(concat("Validate driver failed (1): ", e.as_str()));
            },
        };
        match &p.token {
            Some(t) => match TokenName::from_token_string(&driver, &network, t.as_str()) {
                Ok(token) => Ok(PaymentPlatformTriple { driver, network, token }),
                Err(e) => Err(concat("Validate token failed (1): ", e.as_str())),
            },
            None => {
                let token = TokenName::default(&driver, &network);
                Ok(PaymentPlatformTriple { driver, network, token })
            },
        }
    }

    /// Reads a platform name `driver-network-token`.
    pub fn from_payment_platform_str(payment_platform_str: &str) -> (r: Result<
        PaymentPlatformTriple,
        String,
    >)
        ensures
            triple_result_matches(r, platform_from_str_spec(payment_platform_str@)),
    {
        let parts = split_text(payment_platform_str, '-');
        if parts.len() != 3 {
            return Err(concat(
                "paymentPlatform must be of the form driver-network-token instead of ",
                payment_platform_str,
            ));
        }
        proof {
            assert(views(parts@)[0] == parts@[0]@);
            assert(views(parts@)[1] == parts@[1]@);
            assert(views(parts@)[2] == parts@[2]@);
        }
        let network = match validate_network(parts[1].as_str()) {
            Ok(n) => n,
            Err(e) => {
                return Err(concat("Validate network failed (2): ", e.as_str()));
            },
        };
        let driver = match validate_driver(&network, parts[0].as_str()) {
            Ok(d) => d,
            Err(e) => {
                return Err(concat("Validate driver failed (2): ", e.as_str()));
            },
        };
        match TokenName::from_token_string(&driver, &network, parts[2].as_str()) {
            Ok(token) => Ok(PaymentPlatformTriple { driver, network, token }),
            Err(e) => Err(concat("Validate token failed (2): ", e.as_str())),
        }
    }
}

} // verus!

verus! {

proof fn lemma_literal_free(s: Seq<char>)
    requires
        s.len() <= 9,
        forall|i: int| 0 <= i < 9 && i < s.len() ==> s[i] != '-',
    ensures
        crate::split::free_of(s, '-'),
{
}

/// The names of drivers, networks and default tokens hold no `-`.
proof fn lemma_names_free(d: DriverName, n: NetworkName)
    ensures
        crate::split::free_of(driver_text(d), '-'),
        crate::split::free_of(network_text(n), '-'),
        crate::split::free_of(default_token_text(n), '-'),
{
    reveal_strlit("erc20");
    reveal_strlit("mainnet");
    reveal_strlit("rinkeby");
    reveal_strlit("goerli");
    reveal_strlit("mumbai");
    reveal_strlit("polygon");
    reveal_strlit("yatestnet");
    reveal_strlit("sepolia");
    reveal_strlit("holesky");
    reveal_strlit("amoy");
    reveal_strlit("glm");
    reveal_strlit("tglm");
    let a = driver_text(d);
    let b = network_text(n);
    let c = default_token_text(n);
    assert(a[0] != '-' && a[1] != '-' && a[2] != '-' && a[3] != '-' && a[4] != '-');
    lemma_literal_free(a);
    assert(b.len() <= 9);
    assert(forall|i: int| 0 <= i < 9 && i < b.len() ==> b[i] != '-') by {
        assert(b.len() > 0 ==> b[0] != '-');
        assert(b.len() > 1 ==> b[1] != '-');
        assert(b.len() > 2 ==> b[2] != '-');
        assert(b.len() > 3 ==> b[3] != '-');
        assert(b.len() > 4 ==> b[4] != '-');
        assert(b.len() > 5 ==> b[5] != '-');
        assert(b.len() > 6 ==> b[6] != '-');
        assert(b.len() > 7 ==> b[7] != '-');
        assert(b.len() > 8 ==> b[8] != '-');
    }
    lemma_literal_free(b);
    assert(c[0] != '-' && c[1] != '-' && c[2] != '-');
    assert(c.len() > 3 ==> c[3] != '-');
    lemma_literal_free(c);
}

/// Printing a platform that the library can select and reading the name back gives the
/// same platform: every driver, every network still supported, with the network's token.
pub proof fn law_platform_name_round_trip(d: DriverName, n: NetworkName)
    requires
        n != NetworkName::Rinkeby,
    ensures
        platform_from_str_spec(triple_text(triple_of(d, n, default_token_text(n)))) == Ok::<
            TripleView,
            Seq<char>,
        >(triple_of(d, n, default_token_text(n))),
{
    let t = triple_of(d, n, default_token_text(n));
    lemma_names_free(d, n);
    reveal_strlit("-");
    assert("-"@ =~= seq!['-']);
    crate::split::lemma_split_three(driver_text(d), network_text(n), default_token_text(n), '-');
    let parts = crate::split::split_on(triple_text(t), '-');
    assert(parts == seq![driver_text(d), network_text(n), default_token_text(n)]);
    assert(parts[0] == driver_text(d));
    assert(parts[1] == network_text(n));
    assert(parts[2] == default_token_text(n));
    assert(exists|m: NetworkName| network_text(m) == network_text(n));
    let c = choose|m: NetworkName| network_text(m) == network_text(n);
    lemma_network_text_injective(c, n);
    assert(validate_network_spec(network_text(n)) == Ok::<NetworkName, Seq<char>>(n));
    match d {
        DriverName::Erc20 => {},
    }
    assert(validate_driver_spec(driver_text(d)) == Ok::<DriverName, Seq<char>>(d));
    reveal_strlit("GLM");
    reveal_strlit("tGLM");
    reveal_strlit("glm");
    reveal_strlit("tglm");
    assert(default_token_text(n) != "GLM"@);
    assert(default_token_text(n) != "tGLM"@);
}


/// Printing a platform that was read from a name and reading the printed name again gives
/// the same platform: every triple that `from_payment_platform_str` accepts survives a
/// round trip through `to_text`.
pub proof fn law_read_platform_prints_back(s: Seq<char>)
    requires
        platform_from_str_spec(s) is Ok,
    ensures
        platform_from_str_spec(triple_text(platform_from_str_spec(s)->Ok_0)) == platform_from_str_spec(s),
{
    let parts = split_on(s, '-');
    let n = validate_network_spec(parts[1])->Ok_0;
    let d = validate_driver_spec(parts[0])->Ok_0;
    let c = choose|m: NetworkName| network_text(m) == parts[1];
    assert(c == n);
    assert(n != NetworkName::Rinkeby);
    assert(parts[2] == default_token_text(n));
    law_platform_name_round_trip(d, n);
}

/// A name that does not split into three parts at `-` is refused with the same message,
/// whatever it holds.
pub proof fn law_platform_name_needs_three_parts(s: Seq<char>)
    requires
        split_on(s, '-').len() != 3,
    ensures
        platform_from_str_spec(s) == Err::<TripleView, Seq<char>>(
            "paymentPlatform must be of the form driver-network-token instead of "@ + s,
        ),
{
}


/// A platform object that names no network takes the network of its token: the production
/// network (polygon) for `glm`, the test network (holesky) for `tglm`; with the driver it
/// names, or the default one, it selects that network with that token.
pub proof fn law_token_picks_default_network(driver: Option<Seq<char>>, token: Seq<char>)
    requires
        token == "glm"@ || token == "tglm"@,
        driver matches Some(d) ==> d == "erc20"@,
    ensures
        platform_from_input_spec(driver, None, Some(token)) == Ok::<TripleView, Seq<char>>(
            triple_of(
                DriverName::Erc20,
                if token == "glm"@ {
                    NetworkName::Polygon
                } else {
                    NetworkName::Holesky
                },
                token,
            ),
        ),
{
    reveal_strlit("glm");
    reveal_strlit("tglm");
    reveal_strlit("GLM");
    reveal_strlit("tGLM");
    reveal_strlit("erc20");
    reveal_strlit("polygon");
    reveal_strlit("holesky");
    let n = if token == "glm"@ {
        NetworkName::Polygon
    } else {
        NetworkName::Holesky
    };
    if token == "glm"@ {
        assert(token[0] != "GLM"@[0]);
        assert(token.len() != "tGLM"@.len());
    } else {
        assert(token.len() != "GLM"@.len());
        assert(token[1] != "tGLM"@[1]);
    }
    assert(token != "GLM"@);
    assert(token != "tGLM"@);
    assert(exists|m: NetworkName| network_text(m) == network_text(n));
    let c = choose|m: NetworkName| network_text(m) == network_text(n);
    lemma_network_text_injective(c, n);
    assert(validate_network_spec(network_text(n)) == Ok::<NetworkName, Seq<char>>(n));
}
} // verus!
