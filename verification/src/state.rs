//! The authoritative configuration the master replicates to its workers:
//! applications, backends, HTTP and TCP frontends, certificates, and the
//! orders that mutate them. The state after any accepted order is a pure
//! function of the prior state and the order, so a snapshot replays.

use vstd::prelude::*;

verus! {

/// A routed application.
pub struct Application {
    pub app_id: String,
    pub sticky_session: bool,
}

pub ghost struct ApplicationView {
    pub app_id: Seq<char>,
    pub sticky_session: bool,
}

impl View for Application {
    type V = ApplicationView;

    open spec fn view(&self) -> ApplicationView {
        ApplicationView { app_id: self.app_id@, sticky_session: self.sticky_session }
    }
}

impl Clone for Application {
    fn clone(&self) -> (r: Self)
        ensures
            r@ == self@,
    {
        Application { app_id: self.app_id.clone(), sticky_session: self.sticky_session }
    }
}

/// A backend server of an application.
pub struct Backend {
    pub app_id: String,
    pub backend_id: String,
    pub ip_address: String,
    pub port: u16,
}

pub ghost struct BackendView {
    pub app_id: Seq<char>,
    pub backend_id: Seq<char>,
    pub ip_address: Seq<char>,
    pub port: u16,
}

impl View for Backend {
    type V = BackendView;

    open spec fn view(&self) -> BackendView {
        BackendView {
            app_id: self.app_id@,
            backend_id: self.backend_id@,
            ip_address: self.ip_address@,
            port: self.port,
        }
    }
}

impl Clone for Backend {
    fn clone(&self) -> (r: Self)
        ensures
            r@ == self@,
    {
        Backend {
            app_id: self.app_id.clone(),
            backend_id: self.backend_id.clone(),
            ip_address: self.ip_address.clone(),
            port: self.port,
        }
    }
}

/// An HTTP frontend: a hostname and path prefix routed to an application.
pub struct HttpFrontend {
    pub app_id: String,
    pub hostname: String,
    pub path_begin: String,
}

pub ghost struct HttpFrontendView {
    pub app_id: Seq<char>,
    pub hostname: Seq<char>,
    pub path_begin: Seq<char>,
}

impl View for HttpFrontend {
    type V = HttpFrontendView;

    open spec fn view(&self) -> HttpFrontendView {
        HttpFrontendView {
            app_id: self.app_id@,
            hostname: self.hostname@,
            path_begin: self.path_begin@,
        }
    }
}

impl Clone for HttpFrontend {
    fn clone(&self) -> (r: Self)
        ensures
            r@ == self@,
    {
        HttpFrontend {
            app_id: self.app_id.clone(),
            hostname: self.hostname.clone(),
            path_begin: self.path_begin.clone(),
        }
    }
}

/// A TCP frontend: a listening address routed to an application.
pub struct TcpFrontend {
    pub app_id: String,
    pub ip_address: String,
    pub port: u16,
}

pub ghost struct TcpFrontendView {
    pub app_id: Seq<char>,
    pub ip_address: Seq<char>,
    pub port: u16,
}

impl View for TcpFrontend {
    type V = TcpFrontendView;

    open spec fn view(&self) -> TcpFrontendView {
        TcpFrontendView {
            app_id: self.app_id@,
            ip_address: self.ip_address@,
            port: self.port,
        }
    }
}

impl Clone for TcpFrontend {
    fn clone(&self) -> (r: Self)
        ensures
            r@ == self@,
    {
        TcpFrontend {
            app_id: self.app_id.clone(),
            ip_address: self.ip_address.clone(),
            port: self.port,
        }
    }
}

/// A TLS certificate, keyed by its certificate text.
pub struct Certificate {
    pub certificate: String,
    pub certificate_chain: String,
    pub key: String,
}

pub ghost struct CertificateView {
    pub certificate: Seq<char>,
    pub certificate_chain: Seq<char>,
    pub key: Seq<char>,
}

impl View for Certificate {
    type V = CertificateView;

    open spec fn view(&self) -> CertificateView {
        CertificateView {
            certificate: self.certificate@,
            certificate_chain: self.certificate_chain@,
            key: self.key@,
        }
    }
}

impl Clone for Certificate {
    fn clone(&self) -> (r: Self)
        ensures
            r@ == self@,
    {
        Certificate {
            certificate: self.certificate.clone(),
            certificate_chain: self.certificate_chain.clone(),
            key: self.key.clone(),
        }
    }
}

/// A single control directive sent master to worker.
pub enum Order {
    AddApplication(Application),
    RemoveApplication(String),
    AddBackend(Backend),
    RemoveBackend(Backend),
    AddHttpFrontend(HttpFrontend),
    RemoveHttpFrontend(HttpFrontend),
    AddTcpFrontend(TcpFrontend),
    RemoveTcpFrontend(TcpFrontend),
    AddCertificate(Certificate),
    RemoveCertificate(String),
    Logging(String),
    SoftStop,
    HardStop,
    Status,
}

pub ghost enum OrderView {
    AddApplication(ApplicationView),
    RemoveApplication(Seq<char>),
    AddBackend(BackendView),
    RemoveBackend(BackendView),
    AddHttpFrontend(HttpFrontendView),
    RemoveHttpFrontend(HttpFrontendView),
    AddTcpFrontend(TcpFrontendView),
    RemoveTcpFrontend(TcpFrontendView),
    AddCertificate(CertificateView),
    RemoveCertificate(Seq<char>),
    Logging(Seq<char>),
    SoftStop,
    HardStop,
    Status,
}

impl View for Order {
    type V = OrderView;

    open spec fn view(&self) -> OrderView {
        match self {
            Order::AddApplication(a) => OrderView::AddApplication(a@),
            Order::RemoveApplication(id) => OrderView::RemoveApplication(id@),
            Order::AddBackend(b) => OrderView::AddBackend(b@),
            Order::RemoveBackend(b) => OrderView::RemoveBackend(b@),
            Order::AddHttpFrontend(f) => OrderView::AddHttpFrontend(f@),
            Order::RemoveHttpFrontend(f) => OrderView::RemoveHttpFrontend(f@),
            Order::AddTcpFrontend(f) => OrderView::AddTcpFrontend(f@),
            Order::RemoveTcpFrontend(f) => OrderView::RemoveTcpFrontend(f@),
            Order::AddCertificate(c) => OrderView::AddCertificate(c@),
            Order::RemoveCertificate(c) => OrderView::RemoveCertificate(c@),
            Order::Logging(s) => OrderView::Logging(s@),
            Order::SoftStop => OrderView::SoftStop,
            Order::HardStop => OrderView::HardStop,
            Order::Status => OrderView::Status,
        }
    }
}

impl Clone for Order {
    fn clone(&self) -> (r: Self)
        ensures
            r@ == self@,
    {
        match self {
            Order::AddApplication(a) => Order::AddApplication(a.clone()),
            Order::RemoveApplication(id) => Order::RemoveApplication(id.clone()),
            Order::AddBackend(b) => Order::AddBackend(b.clone()),
            Order::RemoveBackend(b) => Order::RemoveBackend(b.clone()),
            Order::AddHttpFrontend(f) => Order::AddHttpFrontend(f.clone()),
            Order::RemoveHttpFrontend(f) => Order::RemoveHttpFrontend(f.clone()),
            Order::AddTcpFrontend(f) => Order::AddTcpFrontend(f.clone()),
            Order::RemoveTcpFrontend(f) => Order::RemoveTcpFrontend(f.clone()),
            Order::AddCertificate(c) => Order::AddCertificate(c.clone()),
            Order::RemoveCertificate(c) => Order::RemoveCertificate(c.clone()),
            Order::Logging(s) => Order::Logging(s.clone()),
            Order::SoftStop => Order::SoftStop,
            Order::HardStop => Order::HardStop,
            Order::Status => Order::Status,
        }
    }
}

impl OrderView {
    /// Whether the order mutates the configuration state.
    pub open spec fn is_mutating(self) -> bool {
        match self {
            OrderView::Logging(_) => false,
            OrderView::SoftStop => false,
            OrderView::HardStop => false,
            OrderView::Status => false,
            _ => true,
        }
    }
}

/// The authoritative picture of the proxy's intended configuration.
pub struct ConfigState {
    pub applications: Vec<Application>,
    pub backends: Vec<Backend>,
    pub http_frontends: Vec<HttpFrontend>,
    pub tcp_frontends: Vec<TcpFrontend>,
    pub certificates: Vec<Certificate>,
}

#[verifier::ext_equal]
pub ghost struct ConfigStateView {
    pub applications: Seq<ApplicationView>,
    pub backends: Seq<BackendView>,
    pub http_frontends: Seq<HttpFrontendView>,
    pub tcp_frontends: Seq<TcpFrontendView>,
    pub certificates: Seq<CertificateView>,
}

impl View for ConfigState {
    type V = ConfigStateView;

    open spec fn view(&self) -> ConfigStateView {
        ConfigStateView {
            applications: self.applications@.map_values(|a: Application| a@),
            backends: self.backends@.map_values(|b: Backend| b@),
            http_frontends: self.http_frontends@.map_values(|f: HttpFrontend| f@),
            tcp_frontends: self.tcp_frontends@.map_values(|f: TcpFrontend| f@),
            certificates: self.certificates@.map_values(|c: Certificate| c@),
        }
    }
}

/// Two backends name the same slot when application, backend id, address and
/// port agree.
pub open spec fn spec_same_backend(a: BackendView, b: BackendView) -> bool {
    a.app_id == b.app_id && a.backend_id == b.backend_id && a.ip_address == b.ip_address && a.port
        == b.port
}

/// Two HTTP frontends name the same route.
pub open spec fn spec_same_http_frontend(a: HttpFrontendView, b: HttpFrontendView) -> bool {
    a.app_id == b.app_id && a.hostname == b.hostname && a.path_begin == b.path_begin
}

/// Two TCP frontends name the same listener.
pub open spec fn spec_same_tcp_frontend(a: TcpFrontendView, b: TcpFrontendView) -> bool {
    a.app_id == b.app_id && a.ip_address == b.ip_address && a.port == b.port
}


/// The applications that do not carry the given id.
pub open spec fn not_app(id: Seq<char>) -> spec_fn(ApplicationView) -> bool {
    |x: ApplicationView| x.app_id != id
}

/// The backends that do not name the same slot.
pub open spec fn not_backend(b: BackendView) -> spec_fn(BackendView) -> bool {
    |x: BackendView| !spec_same_backend(x, b)
}

/// The HTTP frontends that do not name the same route.
pub open spec fn not_http_frontend(f: HttpFrontendView) -> spec_fn(HttpFrontendView) -> bool {
    |x: HttpFrontendView| !spec_same_http_frontend(x, f)
}

/// The TCP frontends that do not name the same listener.
pub open spec fn not_tcp_frontend(f: TcpFrontendView) -> spec_fn(TcpFrontendView) -> bool {
    |x: TcpFrontendView| !spec_same_tcp_frontend(x, f)
}

/// The certificates that do not carry the given certificate text.
pub open spec fn not_certificate(c: Seq<char>) -> spec_fn(CertificateView) -> bool {
    |x: CertificateView| x.certificate != c
}

/// The state an order leaves behind: adding replaces the entry of the same
/// key and appends, removing drops the entry of the key, and an order that
/// does not mutate the configuration leaves it as it was.
pub open spec fn spec_apply(s: ConfigStateView, o: OrderView) -> ConfigStateView {
    match o {
        OrderView::AddApplication(a) => ConfigStateView {
            applications: s.applications.filter(not_app(a.app_id)).push(a),
            ..s
        },
        OrderView::RemoveApplication(id) => ConfigStateView {
            applications: s.applications.filter(not_app(id)),
            ..s
        },
        OrderView::AddBackend(b) => ConfigStateView {
            backends: s.backends.filter(not_backend(b)).push(b),
            ..s
        },
        OrderView::RemoveBackend(b) => ConfigStateView {
            backends: s.backends.filter(not_backend(b)),
            ..s
        },
        OrderView::AddHttpFrontend(f) => ConfigStateView {
            http_frontends: s.http_frontends.filter(not_http_frontend(f)).push(f),
            ..s
        },
        OrderView::RemoveHttpFrontend(f) => ConfigStateView {
            http_frontends: s.http_frontends.filter(not_http_frontend(f)),
            ..s
        },
        OrderView::AddTcpFrontend(f) => ConfigStateView {
            tcp_frontends: s.tcp_frontends.filter(not_tcp_frontend(f)).push(f),
            ..s
        },
        OrderView::RemoveTcpFrontend(f) => ConfigStateView {
            tcp_frontends: s.tcp_frontends.filter(not_tcp_frontend(f)),
            ..s
        },
        OrderView::AddCertificate(c) => ConfigStateView {
            certificates: s.certificates.filter(not_certificate(c.certificate)).push(c),
            ..s
        },
        OrderView::RemoveCertificate(c) => ConfigStateView {
            certificates: s.certificates.filter(not_certificate(c)),
            ..s
        },
        _ => s,
    }
}

/// Replaying a sequence of orders onto a state, first order first.
pub open spec fn spec_replay(s: ConfigStateView, orders: Seq<OrderView>) -> ConfigStateView
    decreases orders.len(),
{
    if orders.len() == 0 {
        s
    } else {
        spec_replay(spec_apply(s, orders[0]), orders.drop_first())
    }
}

/// Replay peels orders off one at a time: the state after one more accepted
/// order is the order applied to the replayed state. Together with
/// `ConfigState::handle_order` this says the master's state always equals the
/// replay of the accepted orders onto the initial state.
pub proof fn lemma_replay_snoc(s: ConfigStateView, orders: Seq<OrderView>, o: OrderView)
    ensures
        spec_replay(s, orders.push(o)) == spec_apply(spec_replay(s, orders), o),
    decreases orders.len(),
{
    if orders.len() == 0 {
        assert(orders.push(o).drop_first() =~= Seq::<OrderView>::empty());
        assert(spec_replay(spec_apply(s, o), Seq::<OrderView>::empty()) == spec_apply(s, o));
        assert(spec_replay(s, orders.push(o)) == spec_apply(s, o));
    } else {
        assert(orders.push(o)[0] == orders[0]);
        assert(orders.push(o).drop_first() =~= orders.drop_first().push(o));
        lemma_replay_snoc(spec_apply(s, orders[0]), orders.drop_first(), o);
    }
}


/// One step of filtering: extending the prefix by an element either appends
/// it to the filtered picture or leaves the picture unchanged.
pub proof fn lemma_filter_step<A>(s: Seq<A>, pred: spec_fn(A) -> bool, i: int)
    requires
        0 <= i < s.len(),
    ensures
        pred(s[i]) ==> s.take(i + 1).filter(pred) == s.take(i).filter(pred).push(s[i]),
        !pred(s[i]) ==> s.take(i + 1).filter(pred) == s.take(i).filter(pred),
{
    reveal_with_fuel(Seq::filter, 1);
    assert(s.take(i + 1).drop_last() =~= s.take(i));
    assert(s.take(i + 1).last() == s[i]);
}

impl ConfigState {
    /// The empty configuration.
    pub fn new() -> (r: ConfigState)
        ensures
            r@ == spec_empty_config(),
    {
        let r = ConfigState {
            applications: Vec::new(),
            backends: Vec::new(),
            http_frontends: Vec::new(),
            tcp_frontends: Vec::new(),
            certificates: Vec::new(),
        };
        proof {
            assert(r@.applications =~= spec_empty_config().applications);
            assert(r@.backends =~= spec_empty_config().backends);
            assert(r@.http_frontends =~= spec_empty_config().http_frontends);
            assert(r@.tcp_frontends =~= spec_empty_config().tcp_frontends);
            assert(r@.certificates =~= spec_empty_config().certificates);
        }
        r
    }

    /// Applies one order transactionally: afterwards the state is exactly the
    /// order applied to the prior state.
    pub fn handle_order(&mut self, order: &Order)
        ensures
            final(self)@ == spec_apply(old(self)@, order@),
    {
        match order {
            Order::AddApplication(a) => {
                remove_application_entry(&mut self.applications, &a.app_id);
                self.applications.push(a.clone());
                proof {
                    assert(self.applications@.map_values(|x: Application| x@)
                        =~= old(self)@.applications.filter(not_app(a@.app_id)).push(a@));
                    assert(self@ =~= spec_apply(old(self)@, order@));
                }
            },
            Order::RemoveApplication(id) => {
                remove_application_entry(&mut self.applications, id);
                proof {
                    assert(self@ =~= spec_apply(old(self)@, order@));
                }
            },
            Order::AddBackend(b) => {
                remove_backend_entry(&mut self.backends, b);
                self.backends.push(b.clone());
                proof {
                    assert(self.backends@.map_values(|x: Backend| x@)
                        =~= old(self)@.backends.filter(not_backend(b@)).push(b@));
                    assert(self@ =~= spec_apply(old(self)@, order@));
                }
            },
            Order::RemoveBackend(b) => {
                remove_backend_entry(&mut self.backends, b);
                proof {
                    assert(self@ =~= spec_apply(old(self)@, order@));
                }
            },
            Order::AddHttpFrontend(f) => {
                remove_http_frontend_entry(&mut self.http_frontends, f);
                self.http_frontends.push(f.clone());
                proof {
                    assert(self.http_frontends@.map_values(|x: HttpFrontend| x@)
                        =~= old(self)@.http_frontends.filter(not_http_frontend(f@)).push(f@));
                    assert(self@ =~= spec_apply(old(self)@, order@));
                }
            },
            Order::RemoveHttpFrontend(f) => {
                remove_http_frontend_entry(&mut self.http_frontends, f);
                proof {
                    assert(self@ =~= spec_apply(old(self)@, order@));
                }
            },
            Order::AddTcpFrontend(f) => {
                remove_tcp_frontend_entry(&mut self.tcp_frontends, f);
                self.tcp_frontends.push(f.clone());
                proof {
                    assert(self.tcp_frontends@.map_values(|x: TcpFrontend| x@)
                        =~= old(self)@.tcp_frontends.filter(not_tcp_frontend(f@)).push(f@));
                    assert(self@ =~= spec_apply(old(self)@, order@));
                }
            },
            Order::RemoveTcpFrontend(f) => {
                remove_tcp_frontend_entry(&mut self.tcp_frontends, f);
                proof {
                    assert(self@ =~= spec_apply(old(self)@, order@));
                }
            },
            Order::AddCertificate(c) => {
                remove_certificate_entry(&mut self.certificates, &c.certificate);
                self.certificates.push(c.clone());
                proof {
                    assert(self.certificates@.map_values(|x: Certificate| x@)
                        =~= old(self)@.certificates.filter(not_certificate(c@.certificate)).push(
                            c@,
                        ));
                    assert(self@ =~= spec_apply(old(self)@, order@));
                }
            },
            Order::RemoveCertificate(c) => {
                remove_certificate_entry(&mut self.certificates, c);
                proof {
                    assert(self@ =~= spec_apply(old(self)@, order@));
                }
            },
            _ => {
                proof {
                    assert(self@ =~= spec_apply(old(self)@, order@));
                }
            },
        }
    }
}

/// The view of the empty configuration.
pub open spec fn spec_empty_config() -> ConfigStateView {
    ConfigStateView {
        applications: Seq::empty(),
        backends: Seq::empty(),
        http_frontends: Seq::empty(),
        tcp_frontends: Seq::empty(),
        certificates: Seq::empty(),
    }
}

fn remove_application_entry(v: &mut Vec<Application>, app_id: &String)
    ensures
        final(v)@.map_values(|a: Application| a@) == old(v)@.map_values(
            |a: Application| a@,
        ).filter(not_app(app_id@)),
{
    let ghost pred = not_app(app_id@);
    let ghost s = v@.map_values(|a: Application| a@);
    let mut out: Vec<Application> = Vec::new();
    let mut i: usize = 0;
    let n = v.len();
    proof {
        reveal_with_fuel(Seq::filter, 1);
        assert(s.take(0) =~= Seq::<ApplicationView>::empty());
        assert(out@.map_values(|a: Application| a@) =~= s.take(0).filter(pred));
    }
    while i < n
        invariant
            i <= n,
            n == v@.len(),
            s == v@.map_values(|a: Application| a@),
            pred == not_app(app_id@),
            out@.map_values(|a: Application| a@) == s.take(i as int).filter(pred),
        decreases n - i,
    {
        proof {
            lemma_filter_step(s, pred, i as int);
            assert(s[i as int] == v@[i as int]@);
        }
        if !(v[i].app_id == *app_id) {
            out.push(v[i].clone());
            proof {
                assert(pred(s[i as int]));
                assert(out@.map_values(|a: Application| a@) =~= s.take(i as int).filter(pred).push(
                    v@[i as int]@,
                ));
                assert(out@.map_values(|a: Application| a@) =~= s.take(i as int + 1).filter(pred));
            }
        } else {
            proof {
                assert(!pred(s[i as int]));
                assert(out@.map_values(|a: Application| a@) =~= s.take(i as int + 1).filter(pred));
            }
        }
        i += 1;
    }
    proof {
        assert(s.take(n as int) =~= s);
    }
    *v = out;
}

fn remove_backend_entry(v: &mut Vec<Backend>, b: &Backend)
    ensures
        final(v)@.map_values(|a: Backend| a@) == old(v)@.map_values(|a: Backend| a@).filter(not_backend(b@)),
{
    let ghost pred = not_backend(b@);
    let ghost s = v@.map_values(|a: Backend| a@);
    let mut out: Vec<Backend> = Vec::new();
    let mut i: usize = 0;
    let n = v.len();
    proof {
        reveal_with_fuel(Seq::filter, 1);
        assert(s.take(0) =~= Seq::<BackendView>::empty());
        assert(out@.map_values(|a: Backend| a@) =~= s.take(0).filter(pred));
    }
    while i < n
        invariant
            i <= n,
            n == v@.len(),
            s == v@.map_values(|a: Backend| a@),
            pred == not_backend(b@),
            out@.map_values(|a: Backend| a@) == s.take(i as int).filter(pred),
        decreases n - i,
    {
        proof {
            lemma_filter_step(s, pred, i as int);
            assert(s[i as int] == v@[i as int]@);
        }
        let same = v[i].app_id == b.app_id && v[i].backend_id == b.backend_id && v[i].ip_address
            == b.ip_address && v[i].port == b.port;
        if !same {
            out.push(v[i].clone());
            proof {
                assert(pred(s[i as int]));
                assert(out@.map_values(|a: Backend| a@) =~= s.take(i as int).filter(pred).push(
                    v@[i as int]@,
                ));
                assert(out@.map_values(|a: Backend| a@) =~= s.take(i as int + 1).filter(pred));
            }
        } else {
            proof {
                assert(!pred(s[i as int]));
                assert(out@.map_values(|a: Backend| a@) =~= s.take(i as int + 1).filter(pred));
            }
        }
        i += 1;
    }
    proof {
        assert(s.take(n as int) =~= s);
    }
    *v = out;
}

fn remove_http_frontend_entry(v: &mut Vec<HttpFrontend>, f: &HttpFrontend)
    ensures
        final(v)@.map_values(|a: HttpFrontend| a@) == old(v)@.map_values(
            |a: HttpFrontend| a@,
        ).filter(not_http_frontend(f@)),
{
    let ghost pred = not_http_frontend(f@);
    let ghost s = v@.map_values(|a: HttpFrontend| a@);
    let mut out: Vec<HttpFrontend> = Vec::new();
    let mut i: usize = 0;
    let n = v.len();
    proof {
        reveal_with_fuel(Seq::filter, 1);
        assert(s.take(0) =~= Seq::<HttpFrontendView>::empty());
        assert(out@.map_values(|a: HttpFrontend| a@) =~= s.take(0).filter(pred));
    }
    while i < n
        invariant
            i <= n,
            n == v@.len(),
            s == v@.map_values(|a: HttpFrontend| a@),
            pred == not_http_frontend(f@),
            out@.map_values(|a: HttpFrontend| a@) == s.take(i as int).filter(pred),
        decreases n - i,
    {
        proof {
            lemma_filter_step(s, pred, i as int);
            assert(s[i as int] == v@[i as int]@);
        }
        let same = v[i].app_id == f.app_id && v[i].hostname == f.hostname && v[i].path_begin
            == f.path_begin;
        if !same {
            out.push(v[i].clone());
            proof {
                assert(pred(s[i as int]));
                assert(out@.map_values(|a: HttpFrontend| a@) =~= s.take(i as int).filter(
                    pred,
                ).push(v@[i as int]@));
                assert(out@.map_values(|a: HttpFrontend| a@) =~= s.take(i as int + 1).filter(pred));
            }
        } else {
            proof {
                assert(!pred(s[i as int]));
                assert(out@.map_values(|a: HttpFrontend| a@) =~= s.take(i as int + 1).filter(pred));
            }
        }
        i += 1;
    }
    proof {
        assert(s.take(n as int) =~= s);
    }
    *v = out;
}

fn remove_tcp_frontend_entry(v: &mut Vec<TcpFrontend>, f: &TcpFrontend)
    ensures
        final(v)@.map_values(|a: TcpFrontend| a@) == old(v)@.map_values(
            |a: TcpFrontend| a@,
        ).filter(not_tcp_frontend(f@)),
{
    let ghost pred = not_tcp_frontend(f@);
    let ghost s = v@.map_values(|a: TcpFrontend| a@);
    let mut out: Vec<TcpFrontend> = Vec::new();
    let mut i: usize = 0;
    let n = v.len();
    proof {
        reveal_with_fuel(Seq::filter, 1);
        assert(s.take(0) =~= Seq::<TcpFrontendView>::empty());
        assert(out@.map_values(|a: TcpFrontend| a@) =~= s.take(0).filter(pred));
    }
    while i < n
        invariant
            i <= n,
            n == v@.len(),
            s == v@.map_values(|a: TcpFrontend| a@),
            pred == not_tcp_frontend(f@),
            out@.map_values(|a: TcpFrontend| a@) == s.take(i as int).filter(pred),
        decreases n - i,
    {
        proof {
            lemma_filter_step(s, pred, i as int);
            assert(s[i as int] == v@[i as int]@);
        }
        let same = v[i].app_id == f.app_id && v[i].ip_address == f.ip_address && v[i].port
            == f.port;
        if !same {
            out.push(v[i].clone());
            proof {
                assert(pred(s[i as int]));
                assert(out@.map_values(|a: TcpFrontend| a@) =~= s.take(i as int).filter(pred).push(
                    v@[i as int]@,
                ));
                assert(out@.map_values(|a: TcpFrontend| a@) =~= s.take(i as int + 1).filter(pred));
            }
        } else {
            proof {
                assert(!pred(s[i as int]));
                assert(out@.map_values(|a: TcpFrontend| a@) =~= s.take(i as int + 1).filter(pred));
            }
        }
        i += 1;
    }
    proof {
        assert(s.take(n as int) =~= s);
    }
    *v = out;
}

fn remove_certificate_entry(v: &mut Vec<Certificate>, certificate: &String)
    ensures
        final(v)@.map_values(|a: Certificate| a@) == old(v)@.map_values(
            |a: Certificate| a@,
        ).filter(not_certificate(certificate@)),
{
    let ghost pred = not_certificate(certificate@);
    let ghost s = v@.map_values(|a: Certificate| a@);
    let mut out: Vec<Certificate> = Vec::new();
    let mut i: usize = 0;
    let n = v.len();
    proof {
        reveal_with_fuel(Seq::filter, 1);
        assert(s.take(0) =~= Seq::<CertificateView>::empty());
        assert(out@.map_values(|a: Certificate| a@) =~= s.take(0).filter(pred));
    }
    while i < n
        invariant
            i <= n,
            n == v@.len(),
            s == v@.map_values(|a: Certificate| a@),
            pred == not_certificate(certificate@),
            out@.map_values(|a: Certificate| a@) == s.take(i as int).filter(pred),
        decreases n - i,
    {
        proof {
            lemma_filter_step(s, pred, i as int);
            assert(s[i as int] == v@[i as int]@);
        }
        if !(v[i].certificate == *certificate) {
            out.push(v[i].clone());
            proof {
                assert(pred(s[i as int]));
                assert(out@.map_values(|a: Certificate| a@) =~= s.take(i as int).filter(pred).push(
                    v@[i as int]@,
                ));
                assert(out@.map_values(|a: Certificate| a@) =~= s.take(i as int + 1).filter(pred));
            }
        } else {
            proof {
                assert(!pred(s[i as int]));
                assert(out@.map_values(|a: Certificate| a@) =~= s.take(i as int + 1).filter(pred));
            }
        }
        i += 1;
    }
    proof {
        assert(s.take(n as int) =~= s);
    }
    *v = out;
}


fn clone_applications(v: &Vec<Application>) -> (r: Vec<Application>)
    ensures
        r@.map_values(|a: Application| a@) == v@.map_values(|a: Application| a@),
{
    let mut r: Vec<Application> = Vec::new();
    let mut i: usize = 0;
    while i < v.len()
        invariant
            i <= v@.len(),
            r@.map_values(|a: Application| a@) =~= v@.map_values(|a: Application| a@).take(
                i as int,
            ),
        decreases v@.len() - i,
    {
        r.push(v[i].clone());
        proof {
            assert(r@.map_values(|a: Application| a@) =~= v@.map_values(|a: Application| a@).take(
                i as int,
            ).push(v@[i as int]@));
            assert(v@.map_values(|a: Application| a@).take(i as int + 1) =~= v@.map_values(
                |a: Application| a@,
            ).take(i as int).push(v@[i as int]@));
            assert(r@.map_values(|a: Application| a@) =~= v@.map_values(
                |a: Application| a@,
            ).take(i as int + 1));
        }
        i += 1;
    }
    proof {
        assert(v@.map_values(|a: Application| a@).take(v@.len() as int) =~= v@.map_values(
            |a: Application| a@,
        ));
    }
    r
}

fn clone_backends(v: &Vec<Backend>) -> (r: Vec<Backend>)
    ensures
        r@.map_values(|a: Backend| a@) == v@.map_values(|a: Backend| a@),
{
    let mut r: Vec<Backend> = Vec::new();
    let mut i: usize = 0;
    while i < v.len()
        invariant
            i <= v@.len(),
            r@.map_values(|a: Backend| a@) =~= v@.map_values(|a: Backend| a@).take(i as int),
        decreases v@.len() - i,
    {
        r.push(v[i].clone());
        proof {
            assert(r@.map_values(|a: Backend| a@) =~= v@.map_values(|a: Backend| a@).take(
                i as int,
            ).push(v@[i as int]@));
            assert(v@.map_values(|a: Backend| a@).take(i as int + 1) =~= v@.map_values(
                |a: Backend| a@,
            ).take(i as int).push(v@[i as int]@));
            assert(r@.map_values(|a: Backend| a@) =~= v@.map_values(|a: Backend| a@).take(
                i as int + 1,
            ));
        }
        i += 1;
    }
    proof {
        assert(v@.map_values(|a: Backend| a@).take(v@.len() as int) =~= v@.map_values(
            |a: Backend| a@,
        ));
    }
    r
}

fn clone_http_frontends(v: &Vec<HttpFrontend>) -> (r: Vec<HttpFrontend>)
    ensures
        r@.map_values(|a: HttpFrontend| a@) == v@.map_values(|a: HttpFrontend| a@),
{
    let mut r: Vec<HttpFrontend> = Vec::new();
    let mut i: usize = 0;
    while i < v.len()
        invariant
            i <= v@.len(),
            r@.map_values(|a: HttpFrontend| a@) =~= v@.map_values(|a: HttpFrontend| a@).take(
                i as int,
            ),
        decreases v@.len() - i,
    {
        r.push(v[i].clone());
        proof {
            assert(r@.map_values(|a: HttpFrontend| a@) =~= v@.map_values(|a: HttpFrontend| a@).take(
                i as int,
            ).push(v@[i as int]@));
            assert(v@.map_values(|a: HttpFrontend| a@).take(i as int + 1) =~= v@.map_values(
                |a: HttpFrontend| a@,
            ).take(i as int).push(v@[i as int]@));
            assert(r@.map_values(|a: HttpFrontend| a@) =~= v@.map_values(
                |a: HttpFrontend| a@,
            ).take(i as int + 1));
        }
        i += 1;
    }
    proof {
        assert(v@.map_values(|a: HttpFrontend| a@).take(v@.len() as int) =~= v@.map_values(
            |a: HttpFrontend| a@,
        ));
    }
    r
}

fn clone_tcp_frontends(v: &Vec<TcpFrontend>) -> (r: Vec<TcpFrontend>)
    ensures
        r@.map_values(|a: TcpFrontend| a@) == v@.map_values(|a: TcpFrontend| a@),
{
    let mut r: Vec<TcpFrontend> = Vec::new();
    let mut i: usize = 0;
    while i < v.len()
        invariant
            i <= v@.len(),
            r@.map_values(|a: TcpFrontend| a@) =~= v@.map_values(|a: TcpFrontend| a@).take(
                i as int,
            ),
        decreases v@.len() - i,
    {
        r.push(v[i].clone());
        proof {
            assert(r@.map_values(|a: TcpFrontend| a@) =~= v@.map_values(|a: TcpFrontend| a@).take(
                i as int,
            ).push(v@[i as int]@));
            assert(v@.map_values(|a: TcpFrontend| a@).take(i as int + 1) =~= v@.map_values(
                |a: TcpFrontend| a@,
            ).take(i as int).push(v@[i as int]@));
            assert(r@.map_values(|a: TcpFrontend| a@) =~= v@.map_values(
                |a: TcpFrontend| a@,
            ).take(i as int + 1));
        }
        i += 1;
    }
    proof {
        assert(v@.map_values(|a: TcpFrontend| a@).take(v@.len() as int) =~= v@.map_values(
            |a: TcpFrontend| a@,
        ));
    }
    r
}

fn clone_certificates(v: &Vec<Certificate>) -> (r: Vec<Certificate>)
    ensures
        r@.map_values(|a: Certificate| a@) == v@.map_values(|a: Certificate| a@),
{
    let mut r: Vec<Certificate> = Vec::new();
    let mut i: usize = 0;
    while i < v.len()
        invariant
            i <= v@.len(),
            r@.map_values(|a: Certificate| a@) =~= v@.map_values(|a: Certificate| a@).take(
                i as int,
            ),
        decreases v@.len() - i,
    {
        r.push(v[i].clone());
        proof {
            assert(r@.map_values(|a: Certificate| a@) =~= v@.map_values(|a: Certificate| a@).take(
                i as int,
            ).push(v@[i as int]@));
            assert(v@.map_values(|a: Certificate| a@).take(i as int + 1) =~= v@.map_values(
                |a: Certificate| a@,
            ).take(i as int).push(v@[i as int]@));
            assert(r@.map_values(|a: Certificate| a@) =~= v@.map_values(
                |a: Certificate| a@,
            ).take(i as int + 1));
        }
        i += 1;
    }
    proof {
        assert(v@.map_values(|a: Certificate| a@).take(v@.len() as int) =~= v@.map_values(
            |a: Certificate| a@,
        ));
    }
    r
}

impl Clone for ConfigState {
    /// A faithful copy: the clone's picture equals the original's.
    fn clone(&self) -> (r: Self)
        ensures
            r@ == self@,
    {
        let r = ConfigState {
            applications: clone_applications(&self.applications),
            backends: clone_backends(&self.backends),
            http_frontends: clone_http_frontends(&self.http_frontends),
            tcp_frontends: clone_tcp_frontends(&self.tcp_frontends),
            certificates: clone_certificates(&self.certificates),
        };
        proof {
            assert(r@ =~= self@);
        }
        r
    }
}

} // verus!
