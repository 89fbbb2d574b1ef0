use http_management::custom_domains::{
    custom_domain_prefix, custom_domain_settings, dns_verification, domain_id_from_key, generate_dns_instructions,
    is_valid_domain, list_custom_domains, new_custom_domain, read_domain, verification_key, verification_update, CustomDomainRequest,
    DomainRoute,
};
use http_management::http::{HttpMethod, Permission};

fn path(parts: &[&str]) -> Vec<String> {
    parts.iter().map(|s| s.to_string()).collect()
}

fn pairs(p: &[(&str, &str)]) -> Vec<(String, String)> {
    p.iter().map(|(k, v)| (k.to_string(), v.to_string())).collect()
}

#[test]
fn routes_custom_domain_requests() {
    assert!(matches!(DomainRoute::route(&path(&["custom-domains"]), HttpMethod::Get), DomainRoute::List));
    assert!(matches!(DomainRoute::route(&path(&["custom-domains", "list"]), HttpMethod::Get), DomainRoute::List));
    assert!(matches!(DomainRoute::route(&path(&["custom-domains", "add"]), HttpMethod::Post), DomainRoute::Add));
    assert!(matches!(DomainRoute::route(&path(&["custom-domains", ""]), HttpMethod::Post), DomainRoute::Add));
    match DomainRoute::route(&path(&["custom-domains", "ab%2Ecd"]), HttpMethod::Delete) {
        DomainRoute::Delete(id) => assert_eq!(id, "ab.cd"),
        _ => panic!("expected a deletion"),
    }
    match DomainRoute::route(&path(&["custom-domains", "verify", "example%2Ecom"]), HttpMethod::Get) {
        DomainRoute::Verify(d) => assert_eq!(d, "example.com"),
        _ => panic!("expected a verification"),
    }
    match DomainRoute::route(&path(&["custom-domains", "instructions", "example.com"]), HttpMethod::Get) {
        DomainRoute::Instructions(d) => assert_eq!(d, "example.com"),
        _ => panic!("expected instructions"),
    }
    assert!(matches!(DomainRoute::route(&path(&["custom-domains", ""]), HttpMethod::Delete), DomainRoute::NotFound));
    assert!(matches!(DomainRoute::route(&path(&["custom-domains", "verify"]), HttpMethod::Post), DomainRoute::NotFound));
    assert!(matches!(DomainRoute::route(&path(&["custom-domains", "x", "y"]), HttpMethod::Get), DomainRoute::NotFound));
}

#[test]
fn route_permissions() {
    assert_eq!(DomainRoute::List.permission(), Some(Permission::DomainGet));
    assert_eq!(DomainRoute::Add.permission(), Some(Permission::DomainCreate));
    assert_eq!(DomainRoute::Delete("x".into()).permission(), Some(Permission::DomainDelete));
    assert_eq!(DomainRoute::Verify("x".into()).permission(), Some(Permission::DomainGet));
    assert_eq!(DomainRoute::NotFound.permission(), None);
}

#[test]
fn validates_domain_names() {
    assert!(is_valid_domain("example.com"));
    assert!(!is_valid_domain(""));
    assert!(!is_valid_domain("localhost"));
    let long = format!("{}.com", "a".repeat(249));
    assert_eq!(long.len(), 253);
    assert!(is_valid_domain(&long));
    let too_long = format!("{}.com", "a".repeat(250));
    assert!(!is_valid_domain(&too_long));
    // 84 three-byte characters and ".co": 255 bytes, though 87 characters.
    let wide = format!("{}.co", "€".repeat(84));
    assert!(!is_valid_domain(&wide));
}

#[test]
fn generates_dns_instructions() {
    let i = generate_dns_instructions("mail.example.org", "example.com");
    assert_eq!(i.domain, "example.com");
    assert_eq!(i.verification_url, "/api/custom-domains/verify/example.com");
    assert_eq!(i.records.len(), 5);
    assert_eq!(i.records[0].typ, "CNAME");
    assert_eq!(i.records[0].value, "mail.example.org.");
    assert_eq!(i.records[1].typ, "MX");
    assert_eq!(i.records[1].value, "10 mail.example.org.");
    assert_eq!(i.records[2].value, "v=spf1 mx ra=postmaster -all");
    assert_eq!(i.records[3].name, "_dmarc.example.com");
    assert_eq!(
        i.records[3].value,
        "v=DMARC1; p=reject; rua=mailto:postmaster@example.com; ruf=mailto:postmaster@example.com"
    );
    assert_eq!(i.records[4].name, "_smtp._tls.example.com");
    assert_eq!(i.records[4].value, "v=TLSRPTv1; rua=mailto:postmaster@example.com");
    assert!(i.records[..4].iter().all(|r| r.required));
    assert!(!i.records[4].required);
    assert_eq!(i.notes.len(), 3);
    assert_eq!(i.notes[0], "DNS changes may take up to 48 hours to propagate globally.");
}

#[test]
fn reads_domain_ids_from_keys() {
    assert_eq!(domain_id_from_key("custom-domain.abc.domain").as_deref(), Some("abc"));
    assert_eq!(domain_id_from_key("custom-domain.a.b.domain").as_deref(), Some("a.b"));
    assert_eq!(domain_id_from_key("custom-domain..domain").as_deref(), Some(""));
    assert_eq!(domain_id_from_key("custom-domain.domain"), None);
    assert_eq!(domain_id_from_key("custom-domain.abc.created-at"), None);
    assert_eq!(domain_id_from_key("other.abc.domain"), None);
}

#[test]
fn lists_stored_domains() {
    let settings = pairs(&[
        ("custom-domain.a1.domain", "one.com"),
        ("custom-domain.a1.dns-verified", "true"),
        ("custom-domain.a1.app-resource", "app"),
        ("custom-domain.b2.created-at", "2024"),
        ("custom-domain.b2.domain", ""),
        ("custom-domain.c3.domain", "old.com"),
        ("custom-domain.c3.domain", "three.com"),
        ("custom-domain.c3.ssl-provisioned", "yes"),
    ]);
    let mut list = list_custom_domains(&settings);
    list.sort_by(|a, b| a.id.cmp(&b.id));
    assert_eq!(list.len(), 2);
    assert_eq!(list[0].id, "a1");
    assert_eq!(list[0].domain, "one.com");
    assert_eq!(list[0].app_resource.as_deref(), Some("app"));
    assert!(list[0].dns_verified);
    assert!(!list[0].ssl_provisioned);
    assert_eq!(list[0].created_at, "");
    assert_eq!(list[1].id, "c3");
    assert_eq!(list[1].domain, "three.com");
    assert_eq!(list[1].app_resource, None);
    assert!(!list[1].ssl_provisioned);
}

#[test]
fn stored_domain_reads_back() {
    let request = CustomDomainRequest { domain: "shop.example".into(), app_resource: None };
    let settings = custom_domain_settings("ff01", &request, "2024-05-06T07:08:09+00:00".into());
    assert_eq!(settings.len(), 5);
    assert_eq!(settings[0], ("custom-domain.ff01.domain".to_string(), "shop.example".to_string()));
    assert_eq!(settings[1], ("custom-domain.ff01.app-resource".to_string(), "".to_string()));
    assert_eq!(settings[2], ("custom-domain.ff01.dns-verified".to_string(), "false".to_string()));
    let list = list_custom_domains(&settings);
    assert_eq!(list.len(), 1);
    assert_eq!(list[0].id, "ff01");
    assert_eq!(list[0].domain, "shop.example");
    assert_eq!(list[0].app_resource.as_deref(), Some(""));
    assert!(!list[0].dns_verified);
    assert_eq!(list[0].created_at, "2024-05-06T07:08:09+00:00");
    let d = read_domain(&settings, "ff01");
    assert_eq!(d.domain, "shop.example");
}

#[test]
fn deleting_clears_the_domain() {
    let request = CustomDomainRequest { domain: "shop.example".into(), app_resource: Some("web".into()) };
    let mut settings = custom_domain_settings("ab", &request, "now".into());
    settings.extend(custom_domain_settings("abc", &request, "now".into()));
    let prefix = custom_domain_prefix("ab");
    assert_eq!(prefix, "custom-domain.ab.");
    settings.retain(|(k, _)| !k.starts_with(&prefix));
    let list = list_custom_domains(&settings);
    assert_eq!(list.len(), 1);
    assert_eq!(list[0].id, "abc");
}

#[test]
fn new_domain_has_a_hex_id() {
    let request = CustomDomainRequest { domain: "x.org".into(), app_resource: None };
    let (id, settings) = new_custom_domain(&request);
    assert!(!id.is_empty() && id.len() <= 16);
    assert!(id.chars().all(|c| c.is_ascii_hexdigit() && !c.is_ascii_uppercase()));
    assert_eq!(settings[0].0, format!("custom-domain.{id}.domain"));
    assert!(chrono::DateTime::parse_from_rfc3339(&settings[4].1).is_ok());
}

#[test]
fn finds_the_key_to_mark_verified() {
    let settings = pairs(&[
        ("custom-domain.a.created-at", "one.com"),
        ("custom-domain.b.domain", "two.com"),
        ("custom-domain.c.domain", "one.com"),
        ("custom-domain.d.domain", "one.com"),
    ]);
    assert_eq!(verification_key(&settings, "one.com").as_deref(), Some("custom-domain.c.dns-verified"));
    assert_eq!(verification_key(&settings, "none.com"), None);
    let mut marked = settings.clone();
    let update = verification_update(&settings, "one.com").unwrap();
    assert_eq!(update, ("custom-domain.c.dns-verified".to_string(), "true".to_string()));
    assert_eq!(verification_update(&settings, "none.com"), None);
    marked.push(update);
    assert!(read_domain(&marked, "c").dns_verified);
}

#[test]
fn reports_dns_checks() {
    let r = dns_verification("mx.host", "example.com", true, false);
    assert!(!r.verified);
    assert_eq!(r.checks.len(), 2);
    assert_eq!(r.checks[0].record_type, "A/CNAME");
    assert_eq!(r.checks[0].expected, "mx.host");
    assert_eq!(r.checks[0].found.as_deref(), Some("resolves"));
    assert!(r.checks[0].passed);
    assert_eq!(r.checks[1].record_type, "MX");
    assert_eq!(r.checks[1].expected, "10 mx.host.");
    assert_eq!(r.checks[1].found, None);
    assert!(!r.checks[1].passed);
    assert!(dns_verification("mx.host", "example.com", true, true).verified);
}
