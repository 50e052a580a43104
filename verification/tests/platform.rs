use ya_payment::platform::{
    validate_network, DriverName, NetworkName, PaymentPlatform, PaymentPlatformTriple, TokenName,
};

#[test]
fn platform_name_parses_into_its_parts() {
    let t = PaymentPlatformTriple::from_payment_platform_str("erc20-holesky-tglm").unwrap();
    assert_eq!(t.driver, DriverName::Erc20);
    assert_eq!(t.network, NetworkName::Holesky);
    assert_eq!(t.token.0, "tglm");
    assert_eq!(t.to_text(), "erc20-holesky-tglm");
}

#[test]
fn platform_name_with_wrong_shape_is_refused() {
    let e = PaymentPlatformTriple::from_payment_platform_str("erc20-holesky").unwrap_err();
    assert_eq!(
        e,
        "paymentPlatform must be of the form driver-network-token instead of erc20-holesky"
    );
}

#[test]
fn rinkeby_is_refused() {
    assert_eq!(
        validate_network("rinkeby").unwrap_err(),
        "Rinkeby is no longer supported"
    );
    assert_eq!(
        validate_network("nowhere").unwrap_err(),
        "Invalid network name: nowhere"
    );
}

#[test]
fn empty_platform_object_selects_default_testnet() {
    let p = PaymentPlatform { driver: None, network: None, token: None };
    let t = PaymentPlatformTriple::from_payment_platform_input(&p).unwrap();
    assert_eq!(t.to_text(), "erc20-holesky-tglm");
}

#[test]
fn glm_token_alone_selects_mainnet() {
    let p = PaymentPlatform { driver: None, network: None, token: Some("glm".to_string()) };
    let t = PaymentPlatformTriple::from_payment_platform_input(&p).unwrap();
    assert_eq!(t.to_text(), "erc20-polygon-glm");
}

#[test]
fn uppercase_token_is_refused() {
    let p = PaymentPlatform { driver: None, network: None, token: Some("GLM".to_string()) };
    let e = PaymentPlatformTriple::from_payment_platform_input(&p).unwrap_err();
    assert_eq!(
        e,
        "Uppercase token names are not supported. Use lowercase glm or tglm instead of GLM"
    );
}

#[test]
fn token_must_match_network() {
    let e = TokenName::from_token_string(&DriverName::Erc20, &NetworkName::Polygon, "tglm")
        .unwrap_err();
    assert_eq!(
        e,
        "Token tglm does not match expected token glm for driver erc20 and network polygon. Note that for test networks expected token name is tglm and for production networks it is glm"
    );
}
