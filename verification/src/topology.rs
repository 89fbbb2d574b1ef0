//! The service topology graph shown by the admin interface.
use crate::http::{path_element_or_empty, path_get_or_empty, HttpMethod, Permission};
use crate::text::{cat, cat3, chars_of, decimal, decimal_string, eq_chars, to_uppercase, uppercase};
use vstd::prelude::*;

verus! {

/// Port information with direction.
pub struct PortInfo {
    pub port: u16,
    pub protocol: String,
    pub direction: String,
    pub tls: bool,
}

/// A port taken by its characters.
pub struct PortInfoView {
    pub port: u16,
    pub protocol: Seq<char>,
    pub direction: Seq<char>,
    pub tls: bool,
}

impl View for PortInfo {
    type V = PortInfoView;

    open spec fn view(&self) -> PortInfoView {
        PortInfoView { port: self.port, protocol: self.protocol@, direction: self.direction@, tls: self.tls }
    }
}

/// A node in the service topology graph.
pub struct TopologyNode {
    pub id: String,
    pub node_type: String,
    pub label: String,
    pub status: String,
    pub ports: Vec<PortInfo>,
    pub exposed: bool,
}

/// A node taken by its characters.
pub struct TopologyNodeView {
    pub id: Seq<char>,
    pub node_type: Seq<char>,
    pub label: Seq<char>,
    pub status: Seq<char>,
    pub ports: Seq<PortInfoView>,
    pub exposed: bool,
}

impl View for TopologyNode {
    type V = TopologyNodeView;

    open spec fn view(&self) -> TopologyNodeView {
        TopologyNodeView {
            id: self.id@,
            node_type: self.node_type@,
            label: self.label@,
            status: self.status@,
            ports: self.ports@.map_values(|p: PortInfo| p@),
            exposed: self.exposed,
        }
    }
}

/// An edge/connection in the topology graph.
pub struct TopologyEdge {
    pub from: String,
    pub to: String,
    pub port: u16,
    pub protocol: String,
    pub label: String,
}

/// An edge taken by its characters.
pub struct TopologyEdgeView {
    pub from: Seq<char>,
    pub to: Seq<char>,
    pub port: u16,
    pub protocol: Seq<char>,
    pub label: Seq<char>,
}

impl View for TopologyEdge {
    type V = TopologyEdgeView;

    open spec fn view(&self) -> TopologyEdgeView {
        TopologyEdgeView { from: self.from@, to: self.to@, port: self.port, protocol: self.protocol@, label: self.label@ }
    }
}

/// Full topology response.
pub struct TopologyResponse {
    pub nodes: Vec<TopologyNode>,
    pub edges: Vec<TopologyEdge>,
}

/// A topology taken by its characters.
pub struct TopologyView {
    pub nodes: Seq<TopologyNodeView>,
    pub edges: Seq<TopologyEdgeView>,
}

impl View for TopologyResponse {
    type V = TopologyView;

    open spec fn view(&self) -> TopologyView {
        TopologyView {
            nodes: self.nodes@.map_values(|n: TopologyNode| n@),
            edges: self.edges@.map_values(|e: TopologyEdge| e@),
        }
    }
}

/// A configured service: protocol, port and whether it uses implicit TLS.
pub open spec fn service_texts(services: Seq<(String, u16, bool)>) -> Seq<(Seq<char>, u16, bool)> {
    services.map_values(|s: (String, u16, bool)| (s.0@, s.1, s.2))
}

/// The direction of traffic on a service port: SMTP on a port other than 25
/// is both inbound and outbound; everything else is inbound.
pub open spec fn port_direction(protocol: Seq<char>, port: u16) -> Seq<char> {
    if protocol == "smtp"@ && port != 25 {
        "inbound/outbound"@
    } else {
        "inbound"@
    }
}

/// The port a service listens on.
pub open spec fn port_of(service: (Seq<char>, u16, bool)) -> PortInfoView {
    PortInfoView { port: service.1, protocol: service.0, direction: port_direction(service.0, service.1), tls: service.2 }
}

/// The edge from the internet to a service port, labelled with the upper-cased
/// protocol, ` :<port>`, and ` (TLS)` for TLS ports.
pub open spec fn edge_with(port: PortInfoView, protocol_upper: Seq<char>) -> TopologyEdgeView {
    TopologyEdgeView {
        from: "internet"@,
        to: "mail-server"@,
        port: port.port,
        protocol: port.protocol,
        label: protocol_upper + " :"@ + decimal(port.port as nat) + (if port.tls {
            " (TLS)"@
        } else {
            Seq::empty()
        }),
    }
}

/// The edge from the internet to a service port.
pub open spec fn edge_of(port: PortInfoView) -> TopologyEdgeView {
    edge_with(port, uppercase(port.protocol))
}

/// A node with no ports.
pub open spec fn plain_node(id: Seq<char>, node_type: Seq<char>, label: Seq<char>, status: Seq<char>, exposed: bool) -> TopologyNodeView {
    TopologyNodeView { id, node_type, label, status, ports: Seq::empty(), exposed }
}

/// An internal edge from the mail server to a store.
pub open spec fn internal_edge(to: Seq<char>, label: Seq<char>) -> TopologyEdgeView {
    TopologyEdgeView { from: "mail-server"@, to: to, port: 0, protocol: "internal"@, label: label }
}

/// The topology of a server: the internet, the mail server with one port per
/// service, the data store and the blob store; an edge from the internet to each
/// port, and edges from the mail server to both stores.
pub open spec fn topology(server_name: Seq<char>, services: Seq<(Seq<char>, u16, bool)>) -> TopologyView {
    let ports = services.map_values(|s: (Seq<char>, u16, bool)| port_of(s));
    TopologyView {
        nodes: seq![
            plain_node("internet"@, "internet"@, "Internet"@, "active"@, true),
            TopologyNodeView {
                id: "mail-server"@,
                node_type: "service"@,
                label: "Mail Server ("@ + server_name + ")"@,
                status: "running"@,
                ports: ports,
                exposed: true,
            },
            plain_node("datastore"@, "database"@, "Data Store"@, "running"@, false),
            plain_node("blobstore"@, "storage"@, "Blob Store"@, "running"@, false),
        ],
        edges: ports.map_values(|p: PortInfoView| edge_of(p)) + seq![
            internal_edge("datastore"@, "Data Access"@),
            internal_edge("blobstore"@, "Blob Storage"@),
        ],
    }
}

fn node(id: &str, node_type: &str, label: String, status: &str, ports: Vec<PortInfo>, exposed: bool) -> (r: TopologyNode)
    ensures
        r@ == (TopologyNodeView {
            id: id@,
            node_type: node_type@,
            label: label@,
            status: status@,
            ports: ports@.map_values(|p: PortInfo| p@),
            exposed: exposed,
        }),
{
    TopologyNode { id: id.to_owned(), node_type: node_type.to_owned(), label, status: status.to_owned(), ports, exposed }
}

fn clone_port(p: &PortInfo) -> (r: PortInfo)
    ensures
        r@ == p@,
{
    PortInfo { port: p.port, protocol: p.protocol.clone(), direction: p.direction.clone(), tls: p.tls }
}

/// The port a service listens on.
pub fn port_info(protocol: &String, port: u16, tls: bool) -> (r: PortInfo)
    ensures
        r@ == port_of((protocol@, port, tls)),
{
    let is_smtp = eq_chars(&chars_of(protocol.as_str()), &chars_of("smtp"));
    let direction = if is_smtp && port != 25 {
        "inbound/outbound"
    } else {
        "inbound"
    };
    PortInfo { port, protocol: protocol.clone(), direction: direction.to_owned(), tls }
}

/// The edge from the internet to a service port.
pub fn port_edge(p: &PortInfo) -> (r: TopologyEdge)
    ensures
        r@ == edge_of(p@),
{
    let upper = to_uppercase(p.protocol.as_str());
    edge_for_port(p, upper)
}

/// The edge from the internet to a service port, given its upper-cased protocol.
pub fn edge_for_port(p: &PortInfo, upper: String) -> (r: TopologyEdge)
    ensures
        r@ == edge_with(p@, upper@),
{
    let port = decimal_string(p.port as u64);
    let head = cat3(upper.as_str(), " :", port.as_str());
    let label = if p.tls {
        cat(head.as_str(), " (TLS)")
    } else {
        proof { reveal_strlit(""); }
        let l = cat(head.as_str(), "");
        assert(l@ =~= head@ + Seq::<char>::empty());
        l
    };
    TopologyEdge {
        from: "internet".to_owned(),
        to: "mail-server".to_owned(),
        port: p.port,
        protocol: p.protocol.clone(),
        label,
    }
}

/// Builds the topology graph from the server name and the configured services.
pub fn build_topology(server_name: &str, services: &Vec<(String, u16, bool)>) -> (r: TopologyResponse)
    ensures
        r@ == topology(server_name@, service_texts(services@)),
{
    let ghost st = service_texts(services@);
    let ghost ports_spec = st.map_values(|s: (Seq<char>, u16, bool)| port_of(s));
    let mut mail_ports: Vec<PortInfo> = Vec::new();
    let mut edges: Vec<TopologyEdge> = Vec::new();
    let mut i: usize = 0;
    while i < services.len()
        invariant
            i <= services.len(),
            st == service_texts(services@),
            ports_spec == st.map_values(|s: (Seq<char>, u16, bool)| port_of(s)),
            mail_ports@.map_values(|p: PortInfo| p@) == ports_spec.take(i as int),
            edges@.map_values(|e: TopologyEdge| e@) == ports_spec.take(i as int).map_values(|p: PortInfoView| edge_of(p)),
        decreases services.len() - i,
    {
        let p = port_info(&services[i].0, services[i].1, services[i].2);
        assert(st[i as int] == (services@[i as int].0@, services@[i as int].1, services@[i as int].2));
        let e = port_edge(&p);
        assert(p@ == ports_spec[i as int]);
        assert(e@ == edge_of(ports_spec[i as int]));
        let ghost old_ports = mail_ports@;
        let ghost old_edges = edges@;
        let ghost pv = p@;
        let ghost ev = e@;
        mail_ports.push(p);
        edges.push(e);
        assert(mail_ports@.map_values(|p: PortInfo| p@) =~= old_ports.map_values(|p: PortInfo| p@).push(pv));
        assert(edges@.map_values(|e: TopologyEdge| e@) =~= old_edges.map_values(|e: TopologyEdge| e@).push(ev));
        assert(ports_spec.take(i + 1) =~= ports_spec.take(i as int).push(pv));
        assert(ports_spec.take(i + 1).map_values(|p: PortInfoView| edge_of(p)) =~= ports_spec.take(i as int).map_values(|p: PortInfoView| edge_of(p)).push(ev));
        assert(mail_ports@.map_values(|p: PortInfo| p@) =~= ports_spec.take(i + 1));
        assert(edges@.map_values(|e: TopologyEdge| e@) =~= ports_spec.take(i + 1).map_values(|p: PortInfoView| edge_of(p)));
        i += 1;
    }
    assert(ports_spec.take(services.len() as int) =~= ports_spec);
    let mut node_ports: Vec<PortInfo> = Vec::new();
    let mut j: usize = 0;
    while j < mail_ports.len()
        invariant
            j <= mail_ports.len(),
            node_ports@.map_values(|p: PortInfo| p@) == mail_ports@.map_values(|p: PortInfo| p@).take(j as int),
        decreases mail_ports.len() - j,
    {
        let c = clone_port(&mail_ports[j]);
        assert(mail_ports@.map_values(|p: PortInfo| p@)[j as int] == mail_ports@[j as int]@);
        let ghost old_nodes = node_ports@;
        let ghost cv = c@;
        node_ports.push(c);
        assert(node_ports@.map_values(|p: PortInfo| p@) =~= old_nodes.map_values(|p: PortInfo| p@).push(cv));
        assert(node_ports@.map_values(|p: PortInfo| p@) =~= mail_ports@.map_values(|p: PortInfo| p@).take(j + 1));
        j += 1;
    }
    assert(mail_ports@.map_values(|p: PortInfo| p@).take(mail_ports.len() as int) =~= mail_ports@.map_values(|p: PortInfo| p@));
    let mut nodes: Vec<TopologyNode> = Vec::new();
    let no_ports: Vec<PortInfo> = Vec::new();
    assert(no_ports@.map_values(|p: PortInfo| p@) =~= Seq::<PortInfoView>::empty());
    nodes.push(node("internet", "internet", "Internet".to_owned(), "active", no_ports, true));
    let no_ports: Vec<PortInfo> = Vec::new();
    assert(no_ports@.map_values(|p: PortInfo| p@) =~= Seq::<PortInfoView>::empty());
    let no_ports2: Vec<PortInfo> = Vec::new();
    assert(no_ports2@.map_values(|p: PortInfo| p@) =~= Seq::<PortInfoView>::empty());
    nodes.push(node("mail-server", "service", cat3("Mail Server (", server_name, ")"), "running", node_ports, true));
    nodes.push(node("datastore", "database", "Data Store".to_owned(), "running", no_ports, false));
    nodes.push(node("blobstore", "storage", "Blob Store".to_owned(), "running", no_ports2, false));
    let ghost port_edges = edges@.map_values(|e: TopologyEdge| e@);
    edges.push(TopologyEdge {
        from: "mail-server".to_owned(),
        to: "datastore".to_owned(),
        port: 0,
        protocol: "internal".to_owned(),
        label: "Data Access".to_owned(),
    });
    edges.push(TopologyEdge {
        from: "mail-server".to_owned(),
        to: "blobstore".to_owned(),
        port: 0,
        protocol: "internal".to_owned(),
        label: "Blob Storage".to_owned(),
    });
    let r = TopologyResponse { nodes, edges };
    proof {
        let want = topology(server_name@, st);
        assert(r@.nodes =~= want.nodes);
        assert(r@.edges =~= want.edges);
    }
    r
}

/// A request to the topology endpoint asks for the graph (`services` or nothing, with GET).
pub open spec fn topology_requested(path: Seq<String>, method: HttpMethod) -> bool {
    let first = path_element_or_empty(path, 1);
    method == HttpMethod::Get && (first == "services"@ || first.len() == 0)
}

/// Whether a request asks for the topology graph; any other request is not found.
pub fn is_topology_request(path: &Vec<String>, method: HttpMethod) -> (r: bool)
    ensures
        r == topology_requested(path@, method),
{
    let f = chars_of(path_get_or_empty(path, 1).as_str());
    method == HttpMethod::Get && (eq_chars(&f, &chars_of("services")) || f.len() == 0)
}

/// Viewing the topology needs the permission to view logs.
pub fn topology_permission() -> (r: Permission)
    ensures
        r == Permission::LogsView,
{
    Permission::LogsView
}

} // verus!

verus! {

/// Every configured service has a port on the mail server and an edge from the
/// internet to that port; the last two edges lead to the stores.
pub proof fn lemma_every_service_is_reachable(server_name: Seq<char>, services: Seq<(Seq<char>, u16, bool)>, i: int)
    requires
        0 <= i < services.len(),
    ensures
        topology(server_name, services).nodes[1].ports[i].port == services[i].1,
        topology(server_name, services).edges[i].from == "internet"@,
        topology(server_name, services).edges[i].to == "mail-server"@,
        topology(server_name, services).edges[i].port == services[i].1,
        topology(server_name, services).edges.len() == services.len() + 2,
{
    let ports = services.map_values(|s: (Seq<char>, u16, bool)| port_of(s));
    let edges = ports.map_values(|p: PortInfoView| edge_of(p));
    assert(topology(server_name, services).edges[i] == edges[i]);
}

} // verus!
