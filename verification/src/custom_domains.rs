//! Custom domains: routing, validation, DNS instructions and the settings that store them.
use crate::ids::new_record_id;
use crate::http::{path_element, path_element_or_empty, path_get, path_get_or_empty, HttpMethod, Permission};
use crate::text::{
    cat, cat3, chars_of, contains, contains_chars, ends_with, ends_with_chars, eq_chars, hex,
    opt_chars, slice_chars, starts_with, starts_with_chars, string_of, texts, utf8_len, utf8_len_at_most,
};
use crate::url::{decode_path_element, decoded_path_element, last_value, lookup, pair_texts};
use vstd::prelude::*;

verus! {

/// A custom domain record linking a user-owned domain to an app resource.
pub struct CustomDomain {
    pub id: String,
    pub domain: String,
    pub app_resource: Option<String>,
    pub dns_verified: bool,
    pub ssl_provisioned: bool,
    pub created_at: String,
}

/// A custom domain taken by its characters.
pub struct CustomDomainView {
    pub id: Seq<char>,
    pub domain: Seq<char>,
    pub app_resource: Option<Seq<char>>,
    pub dns_verified: bool,
    pub ssl_provisioned: bool,
    pub created_at: Seq<char>,
}

impl View for CustomDomain {
    type V = CustomDomainView;

    open spec fn view(&self) -> CustomDomainView {
        CustomDomainView {
            id: self.id@,
            domain: self.domain@,
            app_resource: opt_chars(self.app_resource),
            dns_verified: self.dns_verified,
            ssl_provisioned: self.ssl_provisioned,
            created_at: self.created_at@,
        }
    }
}

/// One DNS record that a custom domain needs.
pub struct DnsInstructionRecord {
    pub typ: String,
    pub name: String,
    pub value: String,
    pub purpose: String,
    pub required: bool,
}

/// A DNS record taken by its characters.
pub struct DnsRecordView {
    pub typ: Seq<char>,
    pub name: Seq<char>,
    pub value: Seq<char>,
    pub purpose: Seq<char>,
    pub required: bool,
}

impl View for DnsInstructionRecord {
    type V = DnsRecordView;

    open spec fn view(&self) -> DnsRecordView {
        DnsRecordView {
            typ: self.typ@,
            name: self.name@,
            value: self.value@,
            purpose: self.purpose@,
            required: self.required,
        }
    }
}

/// DNS instructions returned after adding a custom domain.
pub struct DnsInstructions {
    pub domain: String,
    pub records: Vec<DnsInstructionRecord>,
    pub verification_url: String,
    pub notes: Vec<String>,
}

/// DNS instructions taken by their characters.
pub struct DnsInstructionsView {
    pub domain: Seq<char>,
    pub records: Seq<DnsRecordView>,
    pub verification_url: Seq<char>,
    pub notes: Seq<Seq<char>>,
}

impl View for DnsInstructions {
    type V = DnsInstructionsView;

    open spec fn view(&self) -> DnsInstructionsView {
        DnsInstructionsView {
            domain: self.domain@,
            records: self.records@.map_values(|r: DnsInstructionRecord| r@),
            verification_url: self.verification_url@,
            notes: self.notes@.map_values(|n: String| n@),
        }
    }
}

/// The body of a request that adds a custom domain.
pub struct CustomDomainRequest {
    pub domain: String,
    pub app_resource: Option<String>,
}

/// The record a DNS record must be, built from the server name and the domain.
pub open spec fn record(typ: Seq<char>, name: Seq<char>, value: Seq<char>, purpose: Seq<char>, required: bool) -> DnsRecordView {
    DnsRecordView { typ, name, value, purpose, required }
}

/// The DNS instructions for a domain served by `server_name`: CNAME and MX to the
/// server, SPF, DMARC and (optional) TLS reporting.
pub open spec fn dns_instructions(server_name: Seq<char>, domain: Seq<char>) -> DnsInstructionsView {
    DnsInstructionsView {
        domain: domain,
        records: seq![
            record("CNAME"@, domain, server_name + "."@, "Points your domain to the mail server"@, true),
            record("MX"@, domain, "10 "@ + server_name + "."@, "Routes email for your domain to the mail server"@, true),
            record("TXT"@, domain, "v=spf1 mx ra=postmaster -all"@, "SPF record to authorize mail server to send email for this domain"@, true),
            record(
                "TXT"@,
                "_dmarc."@ + domain,
                "v=DMARC1; p=reject; rua=mailto:postmaster@"@ + domain + "; ruf=mailto:postmaster@"@ + domain,
                "DMARC policy for email authentication"@,
                true,
            ),
            record(
                "TXT"@,
                "_smtp._tls."@ + domain,
                "v=TLSRPTv1; rua=mailto:postmaster@"@ + domain,
                "TLS reporting for email transport security"@,
                false,
            ),
        ],
        verification_url: "/api/custom-domains/verify/"@ + domain,
        notes: seq![
            "DNS changes may take up to 48 hours to propagate globally."@,
            "SSL certificates will be automatically provisioned once DNS is verified."@,
            "Use the 'Test DNS' button to check if your records have propagated."@,
        ],
    }
}

fn dns_record(typ: &str, name: String, value: String, purpose: &str, required: bool) -> (r: DnsInstructionRecord)
    ensures
        r@ == record(typ@, name@, value@, purpose@, required),
{
    DnsInstructionRecord { typ: typ.to_owned(), name, value, purpose: purpose.to_owned(), required }
}

/// The DNS records a user must publish for a custom domain.
pub fn generate_dns_instructions(server_name: &str, domain: &str) -> (r: DnsInstructions)
    ensures
        r@ == dns_instructions(server_name@, domain@),
{
    let mut records: Vec<DnsInstructionRecord> = Vec::new();
    records.push(dns_record("CNAME", domain.to_owned(), cat(server_name, "."), "Points your domain to the mail server", true));
    records.push(dns_record("MX", domain.to_owned(), cat3("10 ", server_name, "."), "Routes email for your domain to the mail server", true));
    records.push(dns_record("TXT", domain.to_owned(), "v=spf1 mx ra=postmaster -all".to_owned(), "SPF record to authorize mail server to send email for this domain", true));
    let rua = cat3("v=DMARC1; p=reject; rua=mailto:postmaster@", domain, "; ruf=mailto:postmaster@");
    records.push(dns_record("TXT", cat("_dmarc.", domain), cat(rua.as_str(), domain), "DMARC policy for email authentication", true));
    records.push(dns_record("TXT", cat("_smtp._tls.", domain), cat("v=TLSRPTv1; rua=mailto:postmaster@", domain), "TLS reporting for email transport security", false));
    let mut notes: Vec<String> = Vec::new();
    notes.push("DNS changes may take up to 48 hours to propagate globally.".to_owned());
    notes.push("SSL certificates will be automatically provisioned once DNS is verified.".to_owned());
    notes.push("Use the 'Test DNS' button to check if your records have propagated.".to_owned());
    let r = DnsInstructions {
        domain: domain.to_owned(),
        records,
        verification_url: cat("/api/custom-domains/verify/", domain),
        notes,
    };
    assert(r@.records =~= dns_instructions(server_name@, domain@).records);
    assert(r@.notes =~= dns_instructions(server_name@, domain@).notes);
    r
}

/// A domain name is accepted when it is not empty, holds a '.' and is at most
/// 253 bytes long in UTF-8.
pub open spec fn valid_domain(domain: Seq<char>) -> bool {
    domain.len() > 0 && contains(domain, seq!['.']) && utf8_len(domain) <= 253
}

/// Checks the domain name of a request to add a custom domain.
pub fn is_valid_domain(domain: &str) -> (r: bool)
    ensures
        r == valid_domain(domain@),
{
    let dot = ['.'];
    assert(dot@ =~= seq!['.']);
    let v = chars_of(domain);
    v.len() > 0 && contains_chars(&v, &dot) && utf8_len_at_most(&v, 253)
}

/// What a request to the custom domain endpoint asks for.
pub enum DomainRoute {
    List,
    Add,
    Delete(String),
    Verify(String),
    Instructions(String),
    NotFound,
}

/// A route taken by its characters.
pub enum DomainRouteView {
    List,
    Add,
    Delete(Seq<char>),
    Verify(Seq<char>),
    Instructions(Seq<char>),
    NotFound,
}

impl View for DomainRoute {
    type V = DomainRouteView;

    open spec fn view(&self) -> DomainRouteView {
        match self {
            DomainRoute::List => DomainRouteView::List,
            DomainRoute::Add => DomainRouteView::Add,
            DomainRoute::Delete(id) => DomainRouteView::Delete(id@),
            DomainRoute::Verify(d) => DomainRouteView::Verify(d@),
            DomainRoute::Instructions(d) => DomainRouteView::Instructions(d@),
            DomainRoute::NotFound => DomainRouteView::NotFound,
        }
    }
}

/// The route of a request by its second and third path elements and its method;
/// ids and domains in the path are decoded.
pub open spec fn domain_route(path: Seq<String>, method: HttpMethod) -> DomainRouteView {
    let first = path_element_or_empty(path, 1);
    let second = path_element(path, 2);
    if second is None && method == HttpMethod::Get && (first.len() == 0 || first == "list"@) {
        DomainRouteView::List
    } else if second is None && method == HttpMethod::Post && (first.len() == 0 || first == "add"@) {
        DomainRouteView::Add
    } else if second is None && method == HttpMethod::Delete && first.len() > 0 {
        DomainRouteView::Delete(decoded_path_element(first))
    } else if second is Some && method == HttpMethod::Get && first == "verify"@ {
        DomainRouteView::Verify(decoded_path_element(second->0))
    } else if second is Some && method == HttpMethod::Get && first == "instructions"@ {
        DomainRouteView::Instructions(decoded_path_element(second->0))
    } else {
        DomainRouteView::NotFound
    }
}

/// The permission a route needs.
pub open spec fn domain_route_permission(route: DomainRouteView) -> Option<Permission> {
    match route {
        DomainRouteView::List => Some(Permission::DomainGet),
        DomainRouteView::Add => Some(Permission::DomainCreate),
        DomainRouteView::Delete(_) => Some(Permission::DomainDelete),
        DomainRouteView::Verify(_) => Some(Permission::DomainGet),
        DomainRouteView::Instructions(_) => Some(Permission::DomainGet),
        DomainRouteView::NotFound => None,
    }
}

fn is_text(s: &String, lit: &str) -> (r: bool)
    ensures
        r == (s@ == lit@),
{
    eq_chars(&chars_of(s.as_str()), &chars_of(lit))
}

impl DomainRoute {
    /// Routes a request to the custom domain endpoint.
    pub fn route(path: &Vec<String>, method: HttpMethod) -> (r: DomainRoute)
        ensures
            r@ == domain_route(path@, method),
    {
        let first = path_get_or_empty(path, 1);
        let second = path_get(path, 2);
        let is_get = method == HttpMethod::Get;
        let is_post = method == HttpMethod::Post;
        let is_delete = method == HttpMethod::Delete;
        let empty = first.as_str().is_empty();
        match second {
            None => {
                if is_get && (empty || is_text(&first, "list")) {
                    DomainRoute::List
                } else if is_post && (empty || is_text(&first, "add")) {
                    DomainRoute::Add
                } else if is_delete && !empty {
                    DomainRoute::Delete(decode_path_element(first.as_str()))
                } else {
                    DomainRoute::NotFound
                }
            },
            Some(s) => {
                if is_get && is_text(&first, "verify") {
                    DomainRoute::Verify(decode_path_element(s.as_str()))
                } else if is_get && is_text(&first, "instructions") {
                    DomainRoute::Instructions(decode_path_element(s.as_str()))
                } else {
                    DomainRoute::NotFound
                }
            },
        }
    }

    /// The permission the route needs; `None` for an unknown route.
    pub fn permission(&self) -> (r: Option<Permission>)
        ensures
            r == domain_route_permission(self@),
    {
        match self {
            DomainRoute::List => Some(Permission::DomainGet),
            DomainRoute::Add => Some(Permission::DomainCreate),
            DomainRoute::Delete(_) => Some(Permission::DomainDelete),
            DomainRoute::Verify(_) => Some(Permission::DomainGet),
            DomainRoute::Instructions(_) => Some(Permission::DomainGet),
            DomainRoute::NotFound => None,
        }
    }
}

} // verus!

verus! {

/// The prefix of every custom domain setting.
pub open spec fn settings_prefix() -> Seq<char> {
    "custom-domain."@
}

/// The key of one field of a stored custom domain: `custom-domain.<id><field>`.
pub open spec fn field_key(id: Seq<char>, field: Seq<char>) -> Seq<char> {
    settings_prefix() + id + field
}

/// The id a setting key names a domain for: keys `custom-domain.<id>.domain`.
pub open spec fn domain_id_of_key(key: Seq<char>) -> Option<Seq<char>> {
    let p = settings_prefix();
    let rest = key.skip(p.len() as int);
    if starts_with(key, p) && ends_with(rest, ".domain"@) {
        Some(rest.take(rest.len() - ".domain"@.len()))
    } else {
        None
    }
}

/// The ids of the domains that the settings hold.
pub open spec fn domain_ids(settings: Seq<(Seq<char>, Seq<char>)>) -> Set<Seq<char>> {
    Set::new(|id: Seq<char>| exists|i: int| 0 <= i < settings.len() && #[trigger] domain_id_of_key(settings[i].0) == Some(id))
}

/// The domain with the given id, read from its settings; a later setting replaces an earlier one.
pub open spec fn domain_record(settings: Seq<(Seq<char>, Seq<char>)>, id: Seq<char>) -> CustomDomainView {
    CustomDomainView {
        id: id,
        domain: match lookup(settings, field_key(id, ".domain"@)) {
            Some(v) => v,
            None => Seq::empty(),
        },
        app_resource: lookup(settings, field_key(id, ".app-resource"@)),
        dns_verified: lookup(settings, field_key(id, ".dns-verified"@)) == Some("true"@),
        ssl_provisioned: lookup(settings, field_key(id, ".ssl-provisioned"@)) == Some("true"@),
        created_at: match lookup(settings, field_key(id, ".created-at"@)) {
            Some(v) => v,
            None => Seq::empty(),
        },
    }
}

/// The domains that a listing shows: one per id, where the domain name is not empty.
pub open spec fn listed_domains(settings: Seq<(Seq<char>, Seq<char>)>) -> Set<CustomDomainView> {
    Set::new(
        |d: CustomDomainView|
            domain_ids(settings).contains(d.id) && d == domain_record(settings, d.id) && d.domain.len() > 0,
    )
}

/// The custom domains of a list, taken by their characters.
pub open spec fn domain_views(v: Seq<CustomDomain>) -> Seq<CustomDomainView> {
    v.map_values(|d: CustomDomain| d@)
}

/// No two domains of a list share an id.
pub open spec fn distinct_ids(v: Seq<CustomDomainView>) -> bool {
    forall|i: int, j: int| 0 <= i < j < v.len() ==> v[i].id != v[j].id
}

/// The domain id a setting key names, if any.
pub fn domain_id_from_key(key: &str) -> (r: Option<String>)
    ensures
        opt_chars(r) == domain_id_of_key(key@),
{
    let k = chars_of(key);
    let p = chars_of("custom-domain.");
    let s = chars_of(".domain");
    if !starts_with_chars(&k, &p) {
        return None;
    }
    let rest = slice_chars(&k, p.len(), k.len());
    assert(rest@ =~= key@.skip(p.len() as int));
    if !ends_with_chars(&rest, &s) {
        return None;
    }
    let id = slice_chars(&rest, 0, rest.len() - s.len());
    assert(id@ =~= rest@.take(rest.len() - s.len()));
    Some(string_of(&id))
}

fn contains_text(v: &Vec<String>, s: &String) -> (r: bool)
    ensures
        r == texts(v@).contains(s@),
{
    let sc = chars_of(s.as_str());
    let mut i: usize = 0;
    while i < v.len()
        invariant
            i <= v.len(),
            sc@ == s@,
            forall|j: int| 0 <= j < i ==> v@[j]@ != s@,
        decreases v.len() - i,
    {
        if eq_chars(&chars_of(v[i].as_str()), &sc) {
            assert(texts(v@)[i as int] == s@);
            return true;
        }
        i += 1;
    }
    proof {
        if texts(v@).contains(s@) {
            let j = choose|j: int| 0 <= j < texts(v@).len() && texts(v@)[j] == s@;
            assert(v@[j]@ == s@);
        }
    }
    false
}

fn setting_field(settings: &Vec<(String, String)>, id: &str, field: &str) -> (r: Option<String>)
    ensures
        opt_chars(r) == lookup(pair_texts(settings@), field_key(id@, field@)),
{
    let key = cat3("custom-domain.", id, field);
    let r = last_value(settings, key.as_str());
    r
}

fn is_true(v: &Option<String>) -> (r: bool)
    ensures
        r == (opt_chars(*v) == Some("true"@)),
{
    match v {
        Some(s) => eq_chars(&chars_of(s.as_str()), &chars_of("true")),
        None => false,
    }
}

/// The domain with the given id, read from the settings.
pub fn read_domain(settings: &Vec<(String, String)>, id: &str) -> (r: CustomDomain)
    ensures
        r@ == domain_record(pair_texts(settings@), id@),
{
    let domain = match setting_field(settings, id, ".domain") {
        Some(v) => v,
        None => String::new(),
    };
    let app_resource = setting_field(settings, id, ".app-resource");
    let dns_verified = is_true(&setting_field(settings, id, ".dns-verified"));
    let ssl_provisioned = is_true(&setting_field(settings, id, ".ssl-provisioned"));
    let created_at = match setting_field(settings, id, ".created-at") {
        Some(v) => v,
        None => String::new(),
    };
    CustomDomain { id: id.to_owned(), domain, app_resource, dns_verified, ssl_provisioned, created_at }
}

/// The custom domains that the `custom-domain.` settings describe, each once.
pub fn list_custom_domains(settings: &Vec<(String, String)>) -> (r: Vec<CustomDomain>)
    ensures
        domain_views(r@).to_set() == listed_domains(pair_texts(settings@)),
        distinct_ids(domain_views(r@)),
{
    let ghost st = pair_texts(settings@);
    // The ids, each once, in the order their keys come.
    let mut ids: Vec<String> = Vec::new();
    let mut i: usize = 0;
    while i < settings.len()
        invariant
            i <= settings.len(),
            st == pair_texts(settings@),
            forall|a: int, b: int| 0 <= a < b < ids.len() ==> ids@[a]@ != ids@[b]@,
            texts(ids@).to_set() == Set::new(
                |id: Seq<char>| exists|j: int| 0 <= j < i && #[trigger] domain_id_of_key(st[j].0) == Some(id),
            ),
        decreases settings.len() - i,
    {
        let ghost before = texts(ids@).to_set();
        let ghost before_seq = texts(ids@);
        let found = domain_id_from_key(settings[i].0.as_str());
        assert(st[i as int].0 == settings@[i as int].0@);
        let ghost fv = opt_chars(found);
        match found {
            Some(id) => {
                let ghost idv = id@;
                if !contains_text(&ids, &id) {
                    let ghost old_ids = ids@;
                    ids.push(id);
                    proof {
                        assert(texts(ids@) =~= texts(old_ids).push(ids@[ids.len() - 1]@));
                        assert forall|a: int, b: int| 0 <= a < b < ids.len() implies ids@[a]@ != ids@[b]@ by {
                            if b == ids.len() - 1 {
                                assert(texts(old_ids)[a] == old_ids[a]@);
                            }
                        }
                        assert(texts(ids@)[ids.len() - 1] == idv);
                    }
                }
                assert(texts(ids@).contains(idv));
            },
            None => {},
        }
        proof {
            assert forall|x: Seq<char>| before.contains(x) implies texts(ids@).to_set().contains(x) by {
                let a = choose|a: int| 0 <= a < before_seq.len() && before_seq[a] == x;
                assert(texts(ids@)[a] == x);
            }
            assert forall|id: Seq<char>| texts(ids@).to_set().contains(id) <==> (exists|j: int|
                0 <= j < i + 1 && #[trigger] domain_id_of_key(st[j].0) == Some(id)) by {
                if before.contains(id) {
                    let j = choose|j: int| 0 <= j < i && #[trigger] domain_id_of_key(st[j].0) == Some(id);
                    assert(domain_id_of_key(st[j].0) == Some(id));
                }
                if texts(ids@).to_set().contains(id) && !before.contains(id) {
                    assert(fv == Some(id));
                    assert(domain_id_of_key(st[i as int].0) == Some(id));
                }
                if exists|j: int| 0 <= j < i + 1 && #[trigger] domain_id_of_key(st[j].0) == Some(id) {
                    let j = choose|j: int| 0 <= j < i + 1 && #[trigger] domain_id_of_key(st[j].0) == Some(id);
                    if j == i {
                        assert(fv == Some(id));
                        assert(texts(ids@).contains(id));
                    } else {
                        assert(before.contains(id));
                    }
                }
            }
            assert(texts(ids@).to_set() =~= Set::new(
                |id: Seq<char>| exists|j: int| 0 <= j < i + 1 && #[trigger] domain_id_of_key(st[j].0) == Some(id),
            ));
        }
        i += 1;
    }
    assert(texts(ids@).to_set() =~= domain_ids(st));
    // One record per id, where the domain is set.
    let mut domains: Vec<CustomDomain> = Vec::new();
    let mut k: usize = 0;
    while k < ids.len()
        invariant
            k <= ids.len(),
            st == pair_texts(settings@),
            forall|a: int, b: int| 0 <= a < b < ids.len() ==> ids@[a]@ != ids@[b]@,
            texts(ids@).to_set() == domain_ids(st),
            forall|a: int| 0 <= a < domains.len() ==> exists|b: int| 0 <= b < k && #[trigger] domain_views(domains@)[a].id == ids@[b]@,
            distinct_ids(domain_views(domains@)),
            domain_views(domains@).to_set() == Set::new(
                |d: CustomDomainView|
                    (exists|b: int| 0 <= b < k && #[trigger] ids@[b]@ == d.id) && d == domain_record(st, d.id) && d.domain.len() > 0,
            ),
        decreases ids.len() - k,
    {
        let ghost before = domain_views(domains@);
        let d = read_domain(settings, ids[k].as_str());
        if !d.domain.as_str().is_empty() {
            domains.push(d);
            proof {
                assert(domain_views(domains@) =~= before.push(d@));
                assert forall|a: int, b: int| 0 <= a < b < domain_views(domains@).len() implies domain_views(domains@)[a].id != domain_views(domains@)[b].id by {
                    if b == domains.len() - 1 {
                        let c = choose|c: int| 0 <= c < k && #[trigger] domain_views(domains@)[a].id == ids@[c]@;
                        assert(before[a] == domain_views(domains@)[a]);
                    }
                }
            }
        }
        proof {
            assert forall|a: int| 0 <= a < domains.len() implies exists|b: int| 0 <= b < k + 1 && #[trigger] domain_views(domains@)[a].id == ids@[b]@ by {
                if a < before.len() {
                    assert(before[a] == domain_views(domains@)[a]);
                    let c = choose|c: int| 0 <= c < k && #[trigger] before[a].id == ids@[c]@;
                    assert(domain_views(domains@)[a].id == ids@[c]@);
                } else {
                    assert(domain_views(domains@)[a].id == ids@[k as int]@);
                }
            }
            assert forall|dv: CustomDomainView| domain_views(domains@).to_set().contains(dv) <==> ((exists|b: int| 0 <= b < k + 1 && #[trigger] ids@[b]@ == dv.id) && dv == domain_record(st, dv.id) && dv.domain.len() > 0) by {
                if domain_views(domains@).to_set().contains(dv) && !before.to_set().contains(dv) {
                    assert(dv == d@);
                    assert(ids@[k as int]@ == dv.id);
                }
                if before.to_set().contains(dv) {
                    let a = choose|a: int| 0 <= a < before.len() && before[a] == dv;
                    assert(domain_views(domains@)[a] == dv);
                }
                if (exists|b: int| 0 <= b < k + 1 && #[trigger] ids@[b]@ == dv.id) && dv == domain_record(st, dv.id) && dv.domain.len() > 0 {
                    let b = choose|b: int| 0 <= b < k + 1 && #[trigger] ids@[b]@ == dv.id;
                    if b == k {
                        assert(domain_views(domains@)[domains.len() - 1] == dv);
                    } else {
                        assert(before.to_set().contains(dv));
                        let a = choose|a: int| 0 <= a < before.len() && before[a] == dv;
                        assert(domain_views(domains@)[a] == dv);
                    }
                }
            }
            assert(domain_views(domains@).to_set() =~= Set::new(
                |dv: CustomDomainView|
                    (exists|b: int| 0 <= b < k + 1 && #[trigger] ids@[b]@ == dv.id) && dv == domain_record(st, dv.id) && dv.domain.len() > 0,
            ));
        }
        k += 1;
    }
    proof {
        assert forall|dv: CustomDomainView| domain_views(domains@).to_set().contains(dv) <==> listed_domains(st).contains(dv) by {
            if exists|b: int| 0 <= b < ids.len() && #[trigger] ids@[b]@ == dv.id {
                let b = choose|b: int| 0 <= b < ids.len() && #[trigger] ids@[b]@ == dv.id;
                assert(texts(ids@)[b] == dv.id);
                assert(texts(ids@).to_set().contains(dv.id));
            }
            if domain_ids(st).contains(dv.id) {
                assert(texts(ids@).to_set().contains(dv.id));
                let b = choose|b: int| 0 <= b < texts(ids@).len() && texts(ids@)[b] == dv.id;
                assert(ids@[b]@ == dv.id);
            }
        }
        assert(domain_views(domains@).to_set() =~= listed_domains(st));
    }
    domains
}

} // verus!

verus! {

/// The settings that store a new custom domain: its name, app resource (empty
/// when none), unverified DNS, no certificate, and the time it was added.
pub open spec fn domain_settings(
    id: Seq<char>,
    domain: Seq<char>,
    app_resource: Option<Seq<char>>,
    created_at: Seq<char>,
) -> Seq<(Seq<char>, Seq<char>)> {
    seq![
        (field_key(id, ".domain"@), domain),
        (field_key(id, ".app-resource"@), match app_resource {
            Some(a) => a,
            None => Seq::empty(),
        }),
        (field_key(id, ".dns-verified"@), "false"@),
        (field_key(id, ".ssl-provisioned"@), "false"@),
        (field_key(id, ".created-at"@), created_at),
    ]
}

fn setting(id: &str, field: &str, value: String) -> (r: (String, String))
    ensures
        r.0@ == field_key(id@, field@),
        r.1@ == value@,
{
    (cat3("custom-domain.", id, field), value)
}

/// The settings that store a custom domain with the given id and creation time.
pub fn custom_domain_settings(id: &str, request: &CustomDomainRequest, created_at: String) -> (r: Vec<(String, String)>)
    ensures
        pair_texts(r@) == domain_settings(id@, request.domain@, opt_chars(request.app_resource), created_at@),
{
    let app_resource = match &request.app_resource {
        Some(a) => a.clone(),
        None => String::new(),
    };
    let mut r: Vec<(String, String)> = Vec::new();
    r.push(setting(id, ".domain", request.domain.clone()));
    r.push(setting(id, ".app-resource", app_resource));
    r.push(setting(id, ".dns-verified", "false".to_owned()));
    r.push(setting(id, ".ssl-provisioned", "false".to_owned()));
    r.push(setting(id, ".created-at", created_at));
    assert(pair_texts(r@) =~= domain_settings(id@, request.domain@, opt_chars(request.app_resource), created_at@));
    r
}

/// Calls `chrono::Utc::now().to_rfc3339()`; nothing is claimed of the text.
#[verifier::external_body]
fn now_rfc3339() -> (r: String) {
    chrono::Utc::now().to_rfc3339()
}

/// A new id and the settings that store the requested domain under it, stamped
/// with the current time.
pub fn new_custom_domain(request: &CustomDomainRequest) -> (r: (String, Vec<(String, String)>))
    ensures
        exists|n: u64| r.0@ == hex(n as nat),
        exists|t: Seq<char>| pair_texts(r.1@) == domain_settings(r.0@, request.domain@, opt_chars(request.app_resource), t),
{
    let id = new_record_id();
    let now = now_rfc3339();
    let settings = custom_domain_settings(id.as_str(), request, now);
    (id, settings)
}

/// The prefix of every setting of one custom domain: `custom-domain.<id>.`.
pub open spec fn domain_settings_prefix(id: Seq<char>) -> Seq<char> {
    settings_prefix() + id + "."@
}

/// The prefix that deleting a custom domain clears.
pub fn custom_domain_prefix(id: &str) -> (r: String)
    ensures
        r@ == domain_settings_prefix(id@),
{
    cat3("custom-domain.", id, ".")
}

/// The settings that remain once those under a prefix are cleared.
pub open spec fn without_prefix(settings: Seq<(Seq<char>, Seq<char>)>, prefix: Seq<char>) -> Seq<(Seq<char>, Seq<char>)> {
    settings.filter(not_under(prefix))
}

/// A setting whose key does not start with the prefix.
pub open spec fn not_under(prefix: Seq<char>) -> spec_fn((Seq<char>, Seq<char>)) -> bool {
    |p: (Seq<char>, Seq<char>)| !starts_with(p.0, prefix)
}

/// The key that records the DNS verification of a domain: that of the first
/// setting naming the domain (`<prefix>.domain` = domain), with `.dns-verified`
/// in place of `.domain`.
pub open spec fn verification_key_from(settings: Seq<(Seq<char>, Seq<char>)>, domain: Seq<char>, i: int) -> Option<Seq<char>>
    decreases settings.len() - i,
{
    if i < 0 || i >= settings.len() {
        None
    } else if ends_with(settings[i].0, ".domain"@) && settings[i].1 == domain {
        Some(settings[i].0.take(settings[i].0.len() - ".domain"@.len()) + ".dns-verified"@)
    } else {
        verification_key_from(settings, domain, i + 1)
    }
}

/// The setting to mark once the DNS of a domain is verified.
pub fn verification_key(settings: &Vec<(String, String)>, domain: &str) -> (r: Option<String>)
    ensures
        opt_chars(r) == verification_key_from(pair_texts(settings@), domain@, 0),
{
    let ghost st = pair_texts(settings@);
    let suffix = chars_of(".domain");
    let d = chars_of(domain);
    let mut i: usize = 0;
    while i < settings.len()
        invariant
            i <= settings.len(),
            st == pair_texts(settings@),
            suffix@ == ".domain"@,
            d@ == domain@,
            verification_key_from(st, domain@, i as int) == verification_key_from(st, domain@, 0),
        decreases settings.len() - i,
    {
        let key = chars_of(settings[i].0.as_str());
        assert(st[i as int] == (settings@[i as int].0@, settings@[i as int].1@));
        if ends_with_chars(&key, &suffix) && eq_chars(&chars_of(settings[i].1.as_str()), &d) {
            let prefix = string_of(&slice_chars(&key, 0, key.len() - suffix.len()));
            assert(prefix@ =~= st[i as int].0.take(st[i as int].0.len() - ".domain"@.len()));
            return Some(cat(prefix.as_str(), ".dns-verified"));
        }
        i += 1;
    }
    None
}

/// The setting that records a domain's DNS as verified: its verification key, set to "true".
pub fn verification_update(settings: &Vec<(String, String)>, domain: &str) -> (r: Option<(String, String)>)
    ensures
        match verification_key_from(pair_texts(settings@), domain@, 0) {
            Some(k) => r matches Some(u) && u.0@ == k && u.1@ == "true"@,
            None => r is None,
        },
{
    match verification_key(settings, domain) {
        Some(key) => Some((key, "true".to_owned())),
        None => None,
    }
}

/// One DNS check of a custom domain.
pub struct DnsCheck {
    pub record_type: String,
    pub name: String,
    pub expected: String,
    pub found: Option<String>,
    pub passed: bool,
}

/// A DNS check taken by its characters.
pub struct DnsCheckView {
    pub record_type: Seq<char>,
    pub name: Seq<char>,
    pub expected: Seq<char>,
    pub found: Option<Seq<char>>,
    pub passed: bool,
}

impl View for DnsCheck {
    type V = DnsCheckView;

    open spec fn view(&self) -> DnsCheckView {
        DnsCheckView {
            record_type: self.record_type@,
            name: self.name@,
            expected: self.expected@,
            found: opt_chars(self.found),
            passed: self.passed,
        }
    }
}

/// The outcome of checking the DNS of a custom domain.
pub struct DnsVerificationResult {
    pub verified: bool,
    pub checks: Vec<DnsCheck>,
}

/// The check of one record: it passed when the name resolved.
pub open spec fn dns_check(record_type: Seq<char>, domain: Seq<char>, expected: Seq<char>, resolves: bool) -> DnsCheckView {
    DnsCheckView {
        record_type: record_type,
        name: domain,
        expected: expected,
        found: if resolves {
            Some("resolves"@)
        } else {
            None
        },
        passed: resolves,
    }
}

fn check(record_type: &str, domain: &str, expected: String, resolves: bool) -> (r: DnsCheck)
    ensures
        r@ == dns_check(record_type@, domain@, expected@, resolves),
{
    DnsCheck {
        record_type: record_type.to_owned(),
        name: domain.to_owned(),
        expected,
        found: if resolves {
            Some("resolves".to_owned())
        } else {
            None
        },
        passed: resolves,
    }
}

/// The result of the DNS checks of a domain, given whether the lookups of its
/// address and of its mail exchanger succeeded.
pub fn dns_verification(server_name: &str, domain: &str, address_resolves: bool, mx_resolves: bool) -> (r: DnsVerificationResult)
    ensures
        r.verified == (address_resolves && mx_resolves),
        r.checks@.map_values(|c: DnsCheck| c@) == seq![
            dns_check("A/CNAME"@, domain@, server_name@, address_resolves),
            dns_check("MX"@, domain@, "10 "@ + server_name@ + "."@, mx_resolves),
        ],
{
    let mut checks: Vec<DnsCheck> = Vec::new();
    checks.push(check("A/CNAME", domain, server_name.to_owned(), address_resolves));
    checks.push(check("MX", domain, cat3("10 ", server_name, "."), mx_resolves));
    let r = DnsVerificationResult { verified: address_resolves && mx_resolves, checks };
    assert(r.checks@.map_values(|c: DnsCheck| c@) =~= seq![
        dns_check("A/CNAME"@, domain@, server_name@, address_resolves),
        dns_check("MX"@, domain@, "10 "@ + server_name@ + "."@, mx_resolves),
    ]);
    r
}

} // verus!

verus! {

/// The key of the `.domain` field names its id, and a key that names an id is that key.
proof fn lemma_domain_key(id: Seq<char>, key: Seq<char>)
    ensures
        domain_id_of_key(field_key(id, ".domain"@)) == Some(id),
        domain_id_of_key(key) == Some(id) ==> key == field_key(id, ".domain"@),
{
    let p = settings_prefix();
    let s = ".domain"@;
    let k = field_key(id, s);
    assert(k.take(p.len() as int) =~= p);
    assert(k.skip(p.len() as int) =~= id + s);
    assert((id + s).skip((id + s).len() - s.len()) =~= s);
    assert((id + s).take((id + s).len() - s.len()) =~= id);
    if domain_id_of_key(key) == Some(id) {
        let rest = key.skip(p.len() as int);
        assert(rest =~= rest.take(rest.len() - s.len()) + rest.skip(rest.len() - s.len()));
        assert(key =~= key.take(p.len() as int) + rest);
    }
}

/// A key `custom-domain.<id><field>` with a field other than `.domain` names no domain.
proof fn lemma_other_field_key(id: Seq<char>, field: Seq<char>)
    requires
        field.len() >= 7,
        field.skip(field.len() - 7) != ".domain"@,
    ensures
        domain_id_of_key(field_key(id, field)) is None,
{
    reveal_strlit(".domain");
    let p = settings_prefix();
    let k = field_key(id, field);
    assert(k.skip(p.len() as int) =~= id + field);
    let rest = id + field;
    assert(rest.skip(rest.len() - 7) =~= field.skip(field.len() - 7));
}

/// Reading back the settings of a newly stored domain lists exactly that domain,
/// with its name, app resource (empty when none was given), unverified DNS, no
/// certificate and its creation time.
pub proof fn lemma_stored_domain_is_listed(
    id: Seq<char>,
    domain: Seq<char>,
    app_resource: Option<Seq<char>>,
    created_at: Seq<char>,
)
    requires
        domain.len() > 0,
    ensures
        listed_domains(domain_settings(id, domain, app_resource, created_at)) == set![
            CustomDomainView {
                id: id,
                domain: domain,
                app_resource: Some(
                    match app_resource {
                        Some(a) => a,
                        None => Seq::empty(),
                    },
                ),
                dns_verified: false,
                ssl_provisioned: false,
                created_at: created_at,
            },
        ],
{
    reveal_strlit(".domain");
    reveal_strlit(".app-resource");
    reveal_strlit(".dns-verified");
    reveal_strlit(".ssl-provisioned");
    reveal_strlit(".created-at");
    reveal_strlit("true");
    reveal_strlit("false");
    let s = domain_settings(id, domain, app_resource, created_at);
    lemma_domain_key(id, field_key(id, ".domain"@));
    assert(".app-resource"@.skip(6) != ".domain"@) by {
        assert(".app-resource"@.skip(6)[0] != ".domain"@[0]);
    }
    assert(".dns-verified"@.skip(6) != ".domain"@) by {
        assert(".dns-verified"@.skip(6)[0] != ".domain"@[0]);
    }
    assert(".ssl-provisioned"@.skip(9) != ".domain"@) by {
        assert(".ssl-provisioned"@.skip(9)[0] != ".domain"@[0]);
    }
    assert(".created-at"@.skip(4) != ".domain"@) by {
        assert(".created-at"@.skip(4)[0] != ".domain"@[0]);
    }
    lemma_other_field_key(id, ".app-resource"@);
    lemma_other_field_key(id, ".dns-verified"@);
    lemma_other_field_key(id, ".ssl-provisioned"@);
    lemma_other_field_key(id, ".created-at"@);
    assert(domain_ids(s) =~= set![id]) by {
        assert forall|x: Seq<char>| domain_ids(s).contains(x) implies x == id by {
            let i = choose|i: int| 0 <= i < s.len() && #[trigger] domain_id_of_key(s[i].0) == Some(x);
        }
        assert(domain_id_of_key(s[0].0) == Some(id));
    }
    let expected = CustomDomainView {
        id: id,
        domain: domain,
        app_resource: Some(
            match app_resource {
                Some(a) => a,
                None => Seq::empty(),
            },
        ),
        dns_verified: false,
        ssl_provisioned: false,
        created_at: created_at,
    };
    // The record reads each field from its own key.
    assert(domain_record(s, id) == expected) by {
        reveal_with_fuel(lookup, 6);
        assert(s.drop_last() =~= s.take(4));
        assert(s.take(4).drop_last() =~= s.take(3));
        assert(s.take(3).drop_last() =~= s.take(2));
        assert(s.take(2).drop_last() =~= s.take(1));
        assert(s.take(1).drop_last() =~= s.take(0));
        assert(s.take(4).last() == s[3]);
        assert(s.take(3).last() == s[2]);
        assert(s.take(2).last() == s[1]);
        assert(s.take(1).last() == s[0]);
        assert(lookup(s, field_key(id, ".domain"@)) == Some(domain));
        assert(field_key(id, ".dns-verified"@) != field_key(id, ".app-resource"@)) by {
            let j: int = (settings_prefix().len() + id.len() + 1) as int;
            assert(field_key(id, ".dns-verified"@)[j] != field_key(id, ".app-resource"@)[j]);
        }
        assert(lookup(s, field_key(id, ".app-resource"@)) == expected.app_resource);
        assert(lookup(s, field_key(id, ".dns-verified"@)) == Some("false"@));
        assert(lookup(s, field_key(id, ".ssl-provisioned"@)) == Some("false"@));
        assert(lookup(s, field_key(id, ".created-at"@)) == Some(created_at));
        assert("false"@.len() != "true"@.len());
        assert(domain_record(s, id).dns_verified == false);
        assert(domain_record(s, id).ssl_provisioned == false);
    }
    assert(listed_domains(s) =~= set![expected]);
}

/// Once the settings under a domain's prefix are cleared, no listed domain has its id.
pub proof fn lemma_deleted_domain_not_listed(settings: Seq<(Seq<char>, Seq<char>)>, id: Seq<char>)
    ensures
        forall|d: CustomDomainView| #[trigger] listed_domains(without_prefix(settings, domain_settings_prefix(id))).contains(d) ==> d.id != id,
{
    reveal_strlit(".domain");
    reveal_strlit(".");
    let rest = without_prefix(settings, domain_settings_prefix(id));
    let pred = not_under(domain_settings_prefix(id));
    assert forall|d: CustomDomainView| #[trigger] listed_domains(rest).contains(d) implies d.id != id by {
        if d.id == id {
            let i = choose|i: int| 0 <= i < rest.len() && #[trigger] domain_id_of_key(rest[i].0) == Some(id);
            lemma_domain_key(id, rest[i].0);
            settings.lemma_filter_pred(pred, i);
            let k = rest[i].0;
            let f = field_key(id, ".domain"@);
            assert(k == f);
            assert(".domain"@[0] == '.');
            assert(f.take(domain_settings_prefix(id).len() as int) =~= domain_settings_prefix(id));
            assert(starts_with(k, domain_settings_prefix(id)));
        }
    }
}

/// For the settings of a newly stored domain, the key that marks its DNS as
/// verified is its `.dns-verified` field; setting it to "true" lists the domain as verified.
pub proof fn lemma_verification_marks_domain(
    id: Seq<char>,
    domain: Seq<char>,
    app_resource: Option<Seq<char>>,
    created_at: Seq<char>,
)
    ensures
        verification_key_from(domain_settings(id, domain, app_resource, created_at), domain, 0) == Some(
            field_key(id, ".dns-verified"@),
        ),
        domain_record(
            domain_settings(id, domain, app_resource, created_at).push((field_key(id, ".dns-verified"@), "true"@)),
            id,
        ).dns_verified,
{
    reveal_strlit(".domain");
    reveal_strlit(".dns-verified");
    let s = domain_settings(id, domain, app_resource, created_at);
    let k = field_key(id, ".domain"@);
    assert(k.skip(k.len() - 7) =~= ".domain"@);
    assert(k.take(k.len() - 7) + ".dns-verified"@ =~= field_key(id, ".dns-verified"@));
    let t = s.push((field_key(id, ".dns-verified"@), "true"@));
    assert(t.last() == (field_key(id, ".dns-verified"@), "true"@));
}

/// A key that the later settings hold is read from them, whatever came before.
proof fn lemma_lookup_later(earlier: Seq<(Seq<char>, Seq<char>)>, later: Seq<(Seq<char>, Seq<char>)>, key: Seq<char>)
    requires
        exists|i: int| 0 <= i < later.len() && #[trigger] later[i].0 == key,
    ensures
        lookup(earlier + later, key) == lookup(later, key),
    decreases later.len(),
{
    let all = earlier + later;
    assert(all.last() == later.last());
    if later.last().0 != key {
        let i = choose|i: int| 0 <= i < later.len() && #[trigger] later[i].0 == key;
        assert(all.drop_last() =~= earlier + later.drop_last());
        assert(later.drop_last()[i].0 == key);
        lemma_lookup_later(earlier, later.drop_last(), key);
    }
}

/// Storing a domain's settings after any earlier settings lists that domain,
/// with its name, app resource (empty when none was given), unverified DNS, no
/// certificate and its creation time.
pub proof fn lemma_stored_domain_listed_after(
    earlier: Seq<(Seq<char>, Seq<char>)>,
    id: Seq<char>,
    domain: Seq<char>,
    app_resource: Option<Seq<char>>,
    created_at: Seq<char>,
)
    requires
        domain.len() > 0,
    ensures
        listed_domains(earlier + domain_settings(id, domain, app_resource, created_at)).contains(
            CustomDomainView {
                id: id,
                domain: domain,
                app_resource: Some(
                    match app_resource {
                        Some(a) => a,
                        None => Seq::empty(),
                    },
                ),
                dns_verified: false,
                ssl_provisioned: false,
                created_at: created_at,
            },
        ),
{
    let t = domain_settings(id, domain, app_resource, created_at);
    let all = earlier + t;
    let expected = CustomDomainView {
        id: id,
        domain: domain,
        app_resource: Some(
            match app_resource {
                Some(a) => a,
                None => Seq::empty(),
            },
        ),
        dns_verified: false,
        ssl_provisioned: false,
        created_at: created_at,
    };
    lemma_stored_domain_is_listed(id, domain, app_resource, created_at);
    assert(set![expected].contains(expected));
    assert(domain_record(t, id) == expected);
    assert(t[0].0 == field_key(id, ".domain"@));
    assert(t[1].0 == field_key(id, ".app-resource"@));
    assert(t[2].0 == field_key(id, ".dns-verified"@));
    assert(t[3].0 == field_key(id, ".ssl-provisioned"@));
    assert(t[4].0 == field_key(id, ".created-at"@));
    lemma_lookup_later(earlier, t, field_key(id, ".domain"@));
    lemma_lookup_later(earlier, t, field_key(id, ".app-resource"@));
    lemma_lookup_later(earlier, t, field_key(id, ".dns-verified"@));
    lemma_lookup_later(earlier, t, field_key(id, ".ssl-provisioned"@));
    lemma_lookup_later(earlier, t, field_key(id, ".created-at"@));
    assert(domain_record(all, id) == domain_record(t, id));
    lemma_domain_key(id, field_key(id, ".domain"@));
    assert(all[earlier.len() as int] == t[0]);
    assert(domain_id_of_key(all[earlier.len() as int].0) == Some(id));
    assert(domain_ids(all).contains(id));
}

/// The five settings of a stored domain have different keys.
proof fn lemma_field_keys_distinct(id: Seq<char>, t: Seq<(Seq<char>, Seq<char>)>, a: int, b: int)
    requires
        t == domain_settings(id, t[0].1, None, t[4].1) || exists|ar: Seq<char>| t == domain_settings(id, t[0].1, Some(ar), t[4].1),
        0 <= a < b < 5,
    ensures
        t[a].0 != t[b].0,
{
    reveal_strlit(".domain");
    reveal_strlit(".app-resource");
    reveal_strlit(".dns-verified");
    reveal_strlit(".ssl-provisioned");
    reveal_strlit(".created-at");
    if a == 1 && b == 2 {
        let j: int = (settings_prefix().len() + id.len() + 1) as int;
        assert(t[a].0[j] != t[b].0[j]);
    } else {
        assert(t[a].0.len() != t[b].0.len());
    }
}

/// A key whose pairs all carry one value, and which occurs, is read as that value.
proof fn lemma_lookup_single_value(st: Seq<(Seq<char>, Seq<char>)>, k: Seq<char>, v: Seq<char>)
    requires
        st.contains((k, v)),
        forall|i: int| 0 <= i < st.len() && #[trigger] st[i].0 == k ==> st[i].1 == v,
    ensures
        lookup(st, k) == Some(v),
    decreases st.len(),
{
    if st.last().0 != k {
        let i = choose|i: int| 0 <= i < st.len() && st[i] == (k, v);
        assert(i != st.len() - 1);
        assert(st.drop_last()[i] == (k, v));
        assert forall|j: int| 0 <= j < st.drop_last().len() && #[trigger] st.drop_last()[j].0 == k implies st.drop_last()[j].1 == v by {
            assert(st[j] == st.drop_last()[j]);
        }
        lemma_lookup_single_value(st.drop_last(), k, v);
    }
}

/// The domain as it is stored: its name, app resource (empty when none was
/// given), unverified DNS, no certificate and its creation time.
pub open spec fn stored_domain(id: Seq<char>, domain: Seq<char>, app_resource: Option<Seq<char>>, created_at: Seq<char>) -> CustomDomainView {
    CustomDomainView {
        id: id,
        domain: domain,
        app_resource: Some(
            match app_resource {
                Some(a) => a,
                None => Seq::empty(),
            },
        ),
        dns_verified: false,
        ssl_provisioned: false,
        created_at: created_at,
    }
}

/// Reading back settings that hold the stored pairs of a domain, and no other pair
/// under its id, in any order, lists that domain exactly once, as it was stored.
pub proof fn lemma_stored_domain_read_back(
    settings: Seq<(Seq<char>, Seq<char>)>,
    id: Seq<char>,
    domain: Seq<char>,
    app_resource: Option<Seq<char>>,
    created_at: Seq<char>,
)
    requires
        domain.len() > 0,
        forall|j: int| 0 <= j < 5 ==> settings.contains(#[trigger] domain_settings(id, domain, app_resource, created_at)[j]),
        forall|i: int|
            0 <= i < settings.len() && starts_with(#[trigger] settings[i].0, domain_settings_prefix(id))
                ==> domain_settings(id, domain, app_resource, created_at).contains(settings[i]),
    ensures
        listed_domains(settings).contains(stored_domain(id, domain, app_resource, created_at)),
        forall|d: CustomDomainView| #[trigger] listed_domains(settings).contains(d) && d.id == id
            ==> d == stored_domain(id, domain, app_resource, created_at),
{
    let t = domain_settings(id, domain, app_resource, created_at);
    let expected = CustomDomainView {
        id: id,
        domain: domain,
        app_resource: Some(
            match app_resource {
                Some(a) => a,
                None => Seq::empty(),
            },
        ),
        dns_verified: false,
        ssl_provisioned: false,
        created_at: created_at,
    };
    lemma_stored_domain_is_listed(id, domain, app_resource, created_at);
    assert(set![expected].contains(expected));
    assert(domain_record(t, id) == expected);
    reveal_strlit(".");
    assert forall|j: int| 0 <= j < 5 implies lookup(settings, #[trigger] t[j].0) == Some(t[j].1) by {
        assert(settings.contains(t[j]));
        assert forall|i: int| 0 <= i < settings.len() && #[trigger] settings[i].0 == t[j].0 implies settings[i].1 == t[j].1 by {
            let p = domain_settings_prefix(id);
            reveal_strlit(".domain");
            reveal_strlit(".app-resource");
            reveal_strlit(".dns-verified");
            reveal_strlit(".ssl-provisioned");
            reveal_strlit(".created-at");
            assert(p.len() <= t[j].0.len());
            assert(t[j].0.take(p.len() as int) =~= p);
            assert(starts_with(settings[i].0, p));
            assert(t.contains(settings[i]));
            let m = choose|m: int| 0 <= m < t.len() && t[m] == settings[i];
            if m != j {
                match app_resource {
                    Some(ar) => {
                        assert(t == domain_settings(id, t[0].1, Some(ar), t[4].1));
                    },
                    None => {},
                }
                if m < j {
                    lemma_field_keys_distinct(id, t, m, j);
                } else {
                    lemma_field_keys_distinct(id, t, j, m);
                }
            }
        }
        lemma_lookup_single_value(settings, t[j].0, t[j].1);
    }
    assert(lookup(settings, t[0].0) == Some(t[0].1));
    assert(lookup(settings, t[1].0) == Some(t[1].1));
    assert(lookup(settings, t[2].0) == Some(t[2].1));
    assert(lookup(settings, t[3].0) == Some(t[3].1));
    assert(lookup(settings, t[4].0) == Some(t[4].1));
    reveal_with_fuel(lookup, 6);
    assert(lookup(t, t[0].0) == Some(t[0].1)) by {
        assert(domain_record(t, id).domain == domain);
    }
    assert(domain_record(settings, id) == domain_record(t, id));
    lemma_domain_key(id, field_key(id, ".domain"@));
    assert(settings.contains(t[0]));
    let k = choose|k: int| 0 <= k < settings.len() && settings[k] == t[0];
    assert(domain_id_of_key(settings[k].0) == Some(id));
    assert(domain_ids(settings).contains(id));
}

/// The instructions for a domain list five records: a CNAME, an MX and an SPF
/// record on the domain itself, the CNAME to the server and the MX with
/// preference 10 to the server; DMARC on `_dmarc.<domain>` and TLS reporting on
/// `_smtp._tls.<domain>`, reports going to `postmaster@<domain>`. All but TLS
/// reporting are required, and the records are checked at `/api/custom-domains/verify/<domain>`.
pub proof fn lemma_dns_instructions_records(server_name: Seq<char>, domain: Seq<char>)
    ensures
        dns_instructions(server_name, domain).domain == domain,
        dns_instructions(server_name, domain).records.len() == 5,
        forall|i: int| 0 <= i < 3 ==> #[trigger] dns_instructions(server_name, domain).records[i].name == domain,
        dns_instructions(server_name, domain).records[0].typ == "CNAME"@,
        dns_instructions(server_name, domain).records[0].value == server_name + "."@,
        dns_instructions(server_name, domain).records[1].typ == "MX"@,
        dns_instructions(server_name, domain).records[1].value == "10 "@ + server_name + "."@,
        dns_instructions(server_name, domain).records[2].typ == "TXT"@,
        dns_instructions(server_name, domain).records[2].value == "v=spf1 mx ra=postmaster -all"@,
        dns_instructions(server_name, domain).records[3].typ == "TXT"@,
        dns_instructions(server_name, domain).records[3].name == "_dmarc."@ + domain,
        dns_instructions(server_name, domain).records[3].value
            == "v=DMARC1; p=reject; rua=mailto:postmaster@"@ + domain + "; ruf=mailto:postmaster@"@ + domain,
        dns_instructions(server_name, domain).records[4].typ == "TXT"@,
        dns_instructions(server_name, domain).records[4].name == "_smtp._tls."@ + domain,
        dns_instructions(server_name, domain).records[4].value == "v=TLSRPTv1; rua=mailto:postmaster@"@ + domain,
        forall|i: int| 0 <= i < 4 ==> #[trigger] dns_instructions(server_name, domain).records[i].required,
        !dns_instructions(server_name, domain).records[4].required,
        dns_instructions(server_name, domain).verification_url == "/api/custom-domains/verify/"@ + domain,
{
}

/// Setting a domain's `.ssl-provisioned` or `.dns-verified` key after any
/// settings lists it with that flag: "true" sets it, any other value clears it,
/// and the other fields are read as before.
pub proof fn lemma_flag_settings_mark_domain(settings: Seq<(Seq<char>, Seq<char>)>, id: Seq<char>, value: Seq<char>)
    ensures
        domain_record(settings.push((field_key(id, ".ssl-provisioned"@), value)), id).ssl_provisioned == (value == "true"@),
        domain_record(settings.push((field_key(id, ".dns-verified"@), value)), id).dns_verified == (value == "true"@),
        domain_record(settings.push((field_key(id, ".ssl-provisioned"@), value)), id).domain == domain_record(settings, id).domain,
        domain_record(settings.push((field_key(id, ".ssl-provisioned"@), value)), id).dns_verified == domain_record(settings, id).dns_verified,
        domain_record(settings.push((field_key(id, ".dns-verified"@), value)), id).ssl_provisioned == domain_record(settings, id).ssl_provisioned,
{
    reveal_strlit(".domain");
    reveal_strlit(".app-resource");
    reveal_strlit(".dns-verified");
    reveal_strlit(".ssl-provisioned");
    reveal_strlit(".created-at");
    let ks = field_key(id, ".ssl-provisioned"@);
    let kd = field_key(id, ".dns-verified"@);
    let s1 = settings.push((ks, value));
    let s2 = settings.push((kd, value));
    assert(s1.drop_last() =~= settings);
    assert(s2.drop_last() =~= settings);
    assert(ks != field_key(id, ".domain"@)) by {
        assert(ks.len() != field_key(id, ".domain"@).len());
    }
    assert(ks != kd) by {
        assert(ks.len() != kd.len());
    }
    assert(kd != field_key(id, ".domain"@)) by {
        assert(kd.len() != field_key(id, ".domain"@).len());
    }
}

} // verus!
