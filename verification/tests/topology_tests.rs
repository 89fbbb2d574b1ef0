use http_management::http::{HttpMethod, Permission};
use http_management::topology::{build_topology, edge_for_port, is_topology_request, port_info, topology_permission};

#[test]
fn builds_the_topology() {
    let services = vec![
        ("smtp".to_string(), 25u16, false),
        ("smtp".to_string(), 465u16, true),
        ("imap".to_string(), 993u16, true),
    ];
    let t = build_topology("mail.example.com", &services);
    assert_eq!(t.nodes.len(), 4);
    assert_eq!(t.nodes[0].id, "internet");
    assert_eq!(t.nodes[0].status, "active");
    assert_eq!(t.nodes[1].id, "mail-server");
    assert_eq!(t.nodes[1].label, "Mail Server (mail.example.com)");
    assert_eq!(t.nodes[1].ports.len(), 3);
    assert_eq!(t.nodes[1].ports[0].direction, "inbound");
    assert_eq!(t.nodes[1].ports[1].direction, "inbound/outbound");
    assert_eq!(t.nodes[1].ports[2].direction, "inbound");
    assert_eq!(t.nodes[2].id, "datastore");
    assert!(!t.nodes[2].exposed);
    assert_eq!(t.nodes[3].label, "Blob Store");
    assert_eq!(t.edges.len(), 5);
    assert_eq!(t.edges[0].label, "SMTP :25");
    assert_eq!(t.edges[1].label, "SMTP :465 (TLS)");
    assert_eq!(t.edges[2].label, "IMAP :993 (TLS)");
    assert_eq!(t.edges[3].to, "datastore");
    assert_eq!(t.edges[3].protocol, "internal");
    assert_eq!(t.edges[4].label, "Blob Storage");
}

#[test]
fn empty_topology_has_the_stores() {
    let t = build_topology("h", &Vec::new());
    assert_eq!(t.nodes.len(), 4);
    assert!(t.nodes[1].ports.is_empty());
    assert_eq!(t.edges.len(), 2);
}

#[test]
fn topology_routes() {
    let p = |parts: &[&str]| parts.iter().map(|s| s.to_string()).collect::<Vec<_>>();
    assert!(is_topology_request(&p(&["topology"]), HttpMethod::Get));
    assert!(is_topology_request(&p(&["topology", "services"]), HttpMethod::Get));
    assert!(!is_topology_request(&p(&["topology", "services"]), HttpMethod::Post));
    assert!(!is_topology_request(&p(&["topology", "nodes"]), HttpMethod::Get));
    assert_eq!(topology_permission(), Permission::LogsView);
}

#[test]
fn edge_labels_use_the_given_protocol_text() {
    let p = port_info(&"pop3".to_string(), 995, true);
    assert_eq!(edge_for_port(&p, "POP3".to_string()).label, "POP3 :995 (TLS)");
    let p = port_info(&"http".to_string(), 8080, false);
    assert_eq!(edge_for_port(&p, "Web".to_string()).label, "Web :8080");
}
