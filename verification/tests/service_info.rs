use cache_proxy_api::info::InfoResponse;

#[test]
fn info_names_the_service_and_port() {
    let info = InfoResponse::new("8070".to_string());
    assert_eq!(info.service, "cache-proxy-api");
    assert_eq!(info.version, "0.1");
    assert_eq!(info.port, "8070");
}
