//! The proxy's configuration: the backend catalog, the routing rules, and their validation.

use vstd::prelude::*;
use crate::boundary::{parse_url, url_parse_failure};
use crate::text::chars_of;

verus! {

/// Process-wide settings.
#[derive(Debug)]
pub struct AppConfig {
    pub port: u16,
    pub redis_url: String,
    pub proxy_config_path: String,
}

/// Why the process-wide settings could not be formed.
#[derive(Debug, Clone, Copy, PartialEq, Eq, Structural)]
pub enum AppConfigError {
    MissingPort,
    InvalidPort,
    MissingRedisUrl,
    MissingProxyConfigPath,
}

/// The number that a text of decimal digits writes.
pub open spec fn decimal_value(d: Seq<char>) -> int
    decreases d.len(),
{
    if d.len() == 0 {
        0
    } else {
        10 * decimal_value(d.drop_last()) + ((d.last() as u32) - 48)
    }
}

/// Every character is a decimal digit.
pub open spec fn all_digits(d: Seq<char>) -> bool {
    forall|i: int| 0 <= i < d.len() ==> '0' <= #[trigger] d[i] <= '9'
}

/// What `u16::from_str` gives for a text: an optional `+`, then one or more decimal
/// digits whose value fits in 16 bits.
pub open spec fn parsed_u16(s: Seq<char>) -> Option<u16> {
    let digits = if s.len() > 0 && s[0] == '+' {
        s.drop_first()
    } else {
        s
    };
    if digits.len() > 0 && all_digits(digits) && decimal_value(digits) <= 65535 {
        Some(decimal_value(digits) as u16)
    } else {
        None
    }
}

/// Reads a port number the way `u16::from_str` does.
pub fn parse_port(text: &str) -> (port: Option<u16>)
    ensures
        port == parsed_u16(text@),
{
    let c = chars_of(text);
    let start: usize = if c.len() > 0 && c[0] == '+' { 1 } else { 0 };
    let ghost digits = c@.skip(start as int);
    assert(digits =~= (if c@.len() > 0 && c@[0] == '+' { c@.drop_first() } else { c@ }));
    if start == c.len() {
        return None;
    }
    let mut acc: u32 = 0;
    let mut overflow = false;
    let mut i: usize = start;
    while i < c.len()
        invariant
            digits == c@.skip(start as int),
            digits == (if c@.len() > 0 && c@[0] == '+' { c@.drop_first() } else { c@ }),
            c@ == text@,
            start <= i <= c@.len(),
            all_digits(c@.subrange(start as int, i as int)),
            !overflow ==> acc == decimal_value(c@.subrange(start as int, i as int)) && acc <= 65535,
            overflow ==> decimal_value(c@.subrange(start as int, i as int)) > 65535,
        decreases c@.len() - i,
    {
        let ch = c[i];
        if !('0' <= ch && ch <= '9') {
            assert(digits[i - start] == ch);
            return None;
        }
        let ghost before = c@.subrange(start as int, i as int);
        let ghost after = c@.subrange(start as int, i + 1);
        assert(after.drop_last() =~= before);
        assert(after.last() == ch);
        let d = (ch as u32) - 48;
        if !overflow {
            let next = acc * 10 + d;
            if next > 65535 {
                overflow = true;
            } else {
                acc = next;
            }
        }
        i = i + 1;
    }
    assert(c@.subrange(start as int, i as int) =~= digits);
    if overflow {
        None
    } else {
        Some(acc as u16)
    }
}

/// The settings formed from the values of `PORT`, `REDIS_URL` and `PROXY_CONFIG_PATH`
/// (`None` for a variable that is not set), checked in that order.
pub fn app_config_from_values(
    port: Option<String>,
    redis_url: Option<String>,
    proxy_config_path: Option<String>,
) -> (res: Result<AppConfig, AppConfigError>)
    ensures
        match res {
            Ok(c) => port is Some && parsed_u16(port->0@) == Some(c.port) && redis_url is Some
                && c.redis_url@ == redis_url->0@ && proxy_config_path is Some && c.proxy_config_path@
                == proxy_config_path->0@,
            Err(AppConfigError::MissingPort) => port is None,
            Err(AppConfigError::InvalidPort) => port is Some && parsed_u16(port->0@) is None,
            Err(AppConfigError::MissingRedisUrl) => port is Some && parsed_u16(port->0@) is Some
                && redis_url is None,
            Err(AppConfigError::MissingProxyConfigPath) => port is Some && parsed_u16(port->0@) is Some
                && redis_url is Some && proxy_config_path is None,
        },
{
    let port_text = match port {
        Some(p) => p,
        None => {
            return Err(AppConfigError::MissingPort);
        },
    };
    let port = match parse_port(port_text.as_str()) {
        Some(n) => n,
        None => {
            return Err(AppConfigError::InvalidPort);
        },
    };
    let redis_url = match redis_url {
        Some(u) => u,
        None => {
            return Err(AppConfigError::MissingRedisUrl);
        },
    };
    let proxy_config_path = match proxy_config_path {
        Some(p) => p,
        None => {
            return Err(AppConfigError::MissingProxyConfigPath);
        },
    };
    Ok(AppConfig { port, redis_url, proxy_config_path })
}

/// One routing rule: requests whose path lies under `prefix` go to `backend`.
#[derive(Clone, Debug)]
pub struct RouteRule {
    pub prefix: String,
    pub backend: String,
    pub cache_ttl_seconds: Option<u64>,
}

/// A routing rule as the contracts see it.
pub struct RouteRuleView {
    pub prefix: Seq<char>,
    pub backend: Seq<char>,
    pub cache_ttl_seconds: Option<u64>,
}

impl View for RouteRule {
    type V = RouteRuleView;

    open spec fn view(&self) -> RouteRuleView {
        RouteRuleView {
            prefix: self.prefix@,
            backend: self.backend@,
            cache_ttl_seconds: self.cache_ttl_seconds,
        }
    }
}

/// The views of a list of rules, in order.
pub open spec fn rule_views(routes: Seq<RouteRule>) -> Seq<RouteRuleView> {
    routes.map_values(|r: RouteRule| r@)
}

/// No name occurs twice among the entries.
pub open spec fn distinct_names(e: Seq<(Seq<char>, Seq<char>)>) -> bool {
    forall|i: int, j: int|
        0 <= i < e.len() && 0 <= j < e.len() && i != j ==> #[trigger] e[i].0 != #[trigger] e[j].0
}

/// The map from name to URL that a list of entries describes.
pub open spec fn entries_map(e: Seq<(Seq<char>, Seq<char>)>) -> Map<Seq<char>, Seq<char>> {
    Map::new(
        |k: Seq<char>| exists|i: int| 0 <= i < e.len() && #[trigger] e[i].0 == k,
        |k: Seq<char>| e[choose|i: int| 0 <= i < e.len() && #[trigger] e[i].0 == k].1,
    )
}

/// The entries once `(k, v)` is recorded: an entry named `k` gets the new URL in its
/// place, and a new name goes at the end.
pub open spec fn entries_after_insert(
    e: Seq<(Seq<char>, Seq<char>)>,
    k: Seq<char>,
    v: Seq<char>,
) -> Seq<(Seq<char>, Seq<char>)> {
    if exists|i: int| 0 <= i < e.len() && #[trigger] e[i].0 == k {
        e.update(choose|i: int| 0 <= i < e.len() && #[trigger] e[i].0 == k, (k, v))
    } else {
        e.push((k, v))
    }
}

/// An entry of a list with distinct names is what the map gives for its name.
pub proof fn lemma_entries_map_at(e: Seq<(Seq<char>, Seq<char>)>, i: int)
    requires
        distinct_names(e),
        0 <= i < e.len(),
    ensures
        entries_map(e).contains_key(e[i].0),
        entries_map(e)[e[i].0] == e[i].1,
{
    let k = e[i].0;
    assert(entries_map(e).contains_key(k));
    let j = choose|j: int| 0 <= j < e.len() && #[trigger] e[j].0 == k;
    assert(e[j].0 == k);
    if j != i {
        assert(e[i].0 != e[j].0);
    }
}

/// Recording an entry keeps names distinct and updates the map as a map insert does.
pub proof fn lemma_entries_after_insert(e: Seq<(Seq<char>, Seq<char>)>, k: Seq<char>, v: Seq<char>)
    requires
        distinct_names(e),
    ensures
        distinct_names(entries_after_insert(e, k, v)),
        entries_map(entries_after_insert(e, k, v)) == entries_map(e).insert(k, v),
{
    let n = entries_after_insert(e, k, v);
    if exists|i: int| 0 <= i < e.len() && #[trigger] e[i].0 == k {
        let i = choose|i: int| 0 <= i < e.len() && #[trigger] e[i].0 == k;
        assert(n == e.update(i, (k, v)));
        assert forall|a: int, b: int|
            0 <= a < n.len() && 0 <= b < n.len() && a != b implies #[trigger] n[a].0
            != #[trigger] n[b].0 by {
            if a != i && b != i {
                assert(e[a].0 != e[b].0);
            } else if a == i {
                assert(e[b].0 != e[i].0);
            } else {
                assert(e[a].0 != e[i].0);
            }
        }
        assert forall|key: Seq<char>|
            #[trigger] entries_map(n).contains_key(key) <==> entries_map(e).insert(
                k,
                v,
            ).contains_key(key) by {
            if entries_map(n).contains_key(key) {
                let j = choose|j: int| 0 <= j < n.len() && #[trigger] n[j].0 == key;
                if j != i {
                    assert(e[j].0 == key);
                }
            }
            if entries_map(e).contains_key(key) {
                let j = choose|j: int| 0 <= j < e.len() && #[trigger] e[j].0 == key;
                if j != i {
                    assert(n[j].0 == key);
                } else {
                    assert(n[i].0 == key);
                }
            }
            if key == k {
                assert(n[i].0 == key);
            }
        }
        assert forall|key: Seq<char>| #[trigger]
            entries_map(n).contains_key(key) implies entries_map(n)[key] == entries_map(e).insert(
            k,
            v,
        )[key] by {
            let j = choose|j: int| 0 <= j < n.len() && #[trigger] n[j].0 == key;
            lemma_entries_map_at(n, j);
            if j != i {
                lemma_entries_map_at(e, j);
            }
        }
        assert(entries_map(n) =~= entries_map(e).insert(k, v));
    } else {
        assert(n == e.push((k, v)));
        assert forall|a: int, b: int|
            0 <= a < n.len() && 0 <= b < n.len() && a != b implies #[trigger] n[a].0
            != #[trigger] n[b].0 by {
            if a < e.len() && b < e.len() {
                assert(e[a].0 != e[b].0);
            } else if a < e.len() {
                assert(n[a] == e[a]);
            } else {
                assert(n[b] == e[b]);
            }
        }
        assert forall|key: Seq<char>|
            #[trigger] entries_map(n).contains_key(key) <==> entries_map(e).insert(
                k,
                v,
            ).contains_key(key) by {
            if entries_map(n).contains_key(key) {
                let j = choose|j: int| 0 <= j < n.len() && #[trigger] n[j].0 == key;
                if j < e.len() {
                    assert(e[j].0 == key);
                }
            }
            if entries_map(e).contains_key(key) {
                let j = choose|j: int| 0 <= j < e.len() && #[trigger] e[j].0 == key;
                assert(n[j].0 == key);
            }
            if key == k {
                assert(n[e.len() as int].0 == key);
            }
        }
        assert forall|key: Seq<char>| #[trigger]
            entries_map(n).contains_key(key) implies entries_map(n)[key] == entries_map(e).insert(
            k,
            v,
        )[key] by {
            let j = choose|j: int| 0 <= j < n.len() && #[trigger] n[j].0 == key;
            lemma_entries_map_at(n, j);
            if j < e.len() {
                assert(n[j] == e[j]);
                lemma_entries_map_at(e, j);
            }
        }
        assert(entries_map(n) =~= entries_map(e).insert(k, v));
    }
}

/// The first position whose name is `name`.
fn position_of_name(entries: &Vec<(String, String)>, name: &String) -> (pos: Option<usize>)
    ensures
        match pos {
            Some(i) => i < entries@.len() && entries@[i as int].0@ == name@ && forall|j: int|
                0 <= j < i ==> #[trigger] entries@[j].0@ != name@,
            None => forall|j: int| 0 <= j < entries@.len() ==> #[trigger] entries@[j].0@ != name@,
        },
{
    let mut i: usize = 0;
    while i < entries.len()
        invariant
            i <= entries@.len(),
            forall|j: int| 0 <= j < i ==> #[trigger] entries@[j].0@ != name@,
        decreases entries@.len() - i,
    {
        if entries[i].0 == *name {
            return Some(i);
        }
        i = i + 1;
    }
    None
}

/// The backend catalog: logical backend names and their base URLs, each name once,
/// in the order in which they were first recorded.
#[derive(Debug)]
pub struct Backends {
    entries: Vec<(String, String)>,
}

impl Backends {
    /// The entries as the contracts see them, in order.
    pub closed spec fn entries(self) -> Seq<(Seq<char>, Seq<char>)> {
        self.entries@.map_values(|e: (String, String)| (e.0@, e.1@))
    }

    #[verifier::type_invariant]
    closed spec fn names_are_distinct(self) -> bool {
        distinct_names(self.entries())
    }

    /// An empty catalog.
    pub fn new() -> (b: Self)
        ensures
            b.entries() == Seq::<(Seq<char>, Seq<char>)>::empty(),
            b@ == Map::<Seq<char>, Seq<char>>::empty(),
    {
        let b = Backends { entries: Vec::new() };
        assert(b.entries() =~= Seq::<(Seq<char>, Seq<char>)>::empty());
        assert(b@ =~= Map::<Seq<char>, Seq<char>>::empty());
        b
    }

    /// Records `url` as the base URL of the backend `name`, replacing an earlier one.
    pub fn insert(&mut self, name: String, url: String)
        ensures
            final(self).entries() == entries_after_insert(old(self).entries(), name@, url@),
            final(self)@ == old(self)@.insert(name@, url@),
    {
        proof {
            use_type_invariant(&*self);
        }
        let ghost e = self.entries();
        let mut entries: Vec<(String, String)> = Vec::new();
        std::mem::swap(&mut entries, &mut self.entries);
        assert(entries@.map_values(|e: (String, String)| (e.0@, e.1@)) == e);
        let found = position_of_name(&entries, &name);
        let i: usize = match found {
            Some(i) => i,
            None => entries.len(),
        };
        proof {
            lemma_entries_after_insert(e, name@, url@);
        }
        if i < entries.len() {
            assert(e[i as int].0 == name@);
            let ghost c = choose|j: int| 0 <= j < e.len() && #[trigger] e[j].0 == name@;
            proof {
                if c != i {
                    assert(e[c].0 != e[i as int].0);
                }
            }
            entries.set(i, (name, url));
            assert(entries@.map_values(|e: (String, String)| (e.0@, e.1@)) =~= entries_after_insert(
                e,
                name@,
                url@,
            ));
        } else {
            assert(!exists|j: int| 0 <= j < e.len() && #[trigger] e[j].0 == name@);
            entries.push((name, url));
            assert(entries@.map_values(|e: (String, String)| (e.0@, e.1@)) =~= entries_after_insert(
                e,
                name@,
                url@,
            ));
        }
        self.entries = entries;
    }

    /// The base URL recorded for `name`, if any.
    pub fn get(&self, name: &str) -> (url: Option<&String>)
        ensures
            match url {
                Some(u) => self@.contains_key(name@) && self@[name@] == u@,
                None => !self@.contains_key(name@),
            },
    {
        proof {
            use_type_invariant(self);
        }
        let key = name.to_owned();
        let ghost e = self.entries();
        let mut i: usize = 0;
        while i < self.entries.len()
            invariant
                self.entries@.map_values(|e: (String, String)| (e.0@, e.1@)) == e,
                i <= self.entries@.len(),
                key@ == name@,
                distinct_names(e),
                forall|j: int| 0 <= j < i ==> #[trigger] e[j].0 != name@,
            decreases self.entries@.len() - i,
        {
            if self.entries[i].0 == key {
                proof {
                    lemma_entries_map_at(e, i as int);
                }
                return Some(&self.entries[i].1);
            }
            i = i + 1;
        }
        None
    }

    /// Whether a base URL is recorded for `name`.
    pub fn contains_key(&self, name: &str) -> (res: bool)
        ensures
            res == self@.contains_key(name@),
    {
        self.get(name).is_some()
    }

    /// The number of backends.
    pub fn len(&self) -> (n: usize)
        ensures
            n == self.entries().len(),
    {
        self.entries.len()
    }

    /// Whether the catalog has no backend.
    pub fn is_empty(&self) -> (res: bool)
        ensures
            res == (self.entries().len() == 0),
            res == (self@ == Map::<Seq<char>, Seq<char>>::empty()),
    {
        let res = self.entries.len() == 0;
        proof {
            if !res {
                assert(self@.contains_key(self.entries()[0].0));
            } else {
                assert(self@ =~= Map::<Seq<char>, Seq<char>>::empty());
            }
        }
        res
    }

    /// The name and base URL of the `i`-th backend.
    pub fn entry(&self, i: usize) -> (res: (&String, &String))
        requires
            i < self.entries().len(),
        ensures
            res.0@ == self.entries()[i as int].0,
            res.1@ == self.entries()[i as int].1,
    {
        (&self.entries[i].0, &self.entries[i].1)
    }
}

impl Clone for Backends {
    fn clone(&self) -> (res: Self)
        ensures
            res.entries() == self.entries(),
    {
        proof {
            use_type_invariant(self);
        }
        let mut entries: Vec<(String, String)> = Vec::new();
        let mut i: usize = 0;
        while i < self.entries.len()
            invariant
                i <= self.entries@.len(),
                entries@.len() == i,
                forall|j: int|
                    0 <= j < i ==> (#[trigger] entries@[j]).0@ == self.entries@[j].0@ && entries@[j].1@
                        == self.entries@[j].1@,
            decreases self.entries@.len() - i,
        {
            let name = self.entries[i].0.clone();
            let url = self.entries[i].1.clone();
            entries.push((name, url));
            i = i + 1;
        }
        assert(entries@.map_values(|e: (String, String)| (e.0@, e.1@)) =~= self.entries());
        Backends { entries }
    }
}

impl View for Backends {
    type V = Map<Seq<char>, Seq<char>>;

    open spec fn view(&self) -> Map<Seq<char>, Seq<char>> {
        entries_map(self.entries())
    }
}

/// The backend catalog and the routing rules.
#[derive(Clone, Debug)]
pub struct ProxyConfig {
    pub backends: Backends,
    pub routes: Vec<RouteRule>,
}

/// Why a configuration was refused.
#[derive(Debug)]
pub enum ConfigError {
    NoBackends,
    NoRoutes,
    InvalidBackendUrl { backend: String, url: String, reason: String },
    PrefixWithoutLeadingSlash { prefix: String },
    UnknownBackend { prefix: String, backend: String },
    ZeroCacheTtl { prefix: String },
}

/// A refusal as the contracts see it.
pub enum ConfigErrorView {
    NoBackends,
    NoRoutes,
    InvalidBackendUrl { backend: Seq<char>, url: Seq<char>, reason: Seq<char> },
    PrefixWithoutLeadingSlash { prefix: Seq<char> },
    UnknownBackend { prefix: Seq<char>, backend: Seq<char> },
    ZeroCacheTtl { prefix: Seq<char> },
}

impl View for ConfigError {
    type V = ConfigErrorView;

    open spec fn view(&self) -> ConfigErrorView {
        match self {
            ConfigError::NoBackends => ConfigErrorView::NoBackends,
            ConfigError::NoRoutes => ConfigErrorView::NoRoutes,
            ConfigError::InvalidBackendUrl { backend, url, reason } => ConfigErrorView::InvalidBackendUrl {
                backend: backend@,
                url: url@,
                reason: reason@,
            },
            ConfigError::PrefixWithoutLeadingSlash { prefix } => ConfigErrorView::PrefixWithoutLeadingSlash {
                prefix: prefix@,
            },
            ConfigError::UnknownBackend { prefix, backend } => ConfigErrorView::UnknownBackend {
                prefix: prefix@,
                backend: backend@,
            },
            ConfigError::ZeroCacheTtl { prefix } => ConfigErrorView::ZeroCacheTtl { prefix: prefix@ },
        }
    }
}

/// The first backend, in catalog order, whose URL does not parse, given for each backend
/// what parsing its URL reported (`None` when it parsed, otherwise the reason).
pub open spec fn first_url_problem(e: Seq<(Seq<char>, Seq<char>)>, failures: Seq<Option<Seq<char>>>) -> Option<
    ConfigErrorView,
>
    decreases e.len(),
{
    if e.len() == 0 {
        None
    } else {
        match failures[0] {
            Some(reason) => Some(
                ConfigErrorView::InvalidBackendUrl { backend: e[0].0, url: e[0].1, reason },
            ),
            None => first_url_problem(e.drop_first(), failures.drop_first()),
        }
    }
}

/// What parsing each backend's URL reports.
pub open spec fn url_failures(e: Seq<(Seq<char>, Seq<char>)>) -> Seq<Option<Seq<char>>> {
    e.map_values(|x: (Seq<char>, Seq<char>)| url_parse_failure(x.1))
}

/// What a URL check reports: `None` when the URL parsed, otherwise the reason.
pub open spec fn check_failures(checks: Seq<Result<(), String>>) -> Seq<Option<Seq<char>>> {
    checks.map_values(
        |r: Result<(), String>|
            match r {
                Ok(_) => None,
                Err(t) => Some(t@),
            },
    )
}

/// What is wrong with one rule, checked in this order: the prefix must start with `'/'`,
/// the backend must be in the catalog, and a cache lifetime, when given, must not be 0.
pub open spec fn route_problem(r: RouteRuleView, backends: Map<Seq<char>, Seq<char>>) -> Option<
    ConfigErrorView,
> {
    if !(r.prefix.len() > 0 && r.prefix[0] == '/') {
        Some(ConfigErrorView::PrefixWithoutLeadingSlash { prefix: r.prefix })
    } else if !backends.contains_key(r.backend) {
        Some(ConfigErrorView::UnknownBackend { prefix: r.prefix, backend: r.backend })
    } else if r.cache_ttl_seconds == Some(0u64) {
        Some(ConfigErrorView::ZeroCacheTtl { prefix: r.prefix })
    } else {
        None
    }
}

/// The problem of the first rule, in order, that has one.
pub open spec fn first_route_problem(
    routes: Seq<RouteRuleView>,
    backends: Map<Seq<char>, Seq<char>>,
) -> Option<ConfigErrorView>
    decreases routes.len(),
{
    if routes.len() == 0 {
        None
    } else {
        match route_problem(routes[0], backends) {
            Some(p) => Some(p),
            None => first_route_problem(routes.drop_first(), backends),
        }
    }
}

/// The outcome of validating a configuration: an empty catalog, then an empty rule list,
/// then the first unparsable backend URL, then the first faulty rule.
pub open spec fn validation_outcome(
    entries: Seq<(Seq<char>, Seq<char>)>,
    routes: Seq<RouteRuleView>,
) -> Result<(), ConfigErrorView> {
    validation_outcome_with(entries, routes, url_failures(entries))
}

/// The outcome of validating a configuration, given what parsing each backend's URL
/// reported.
pub open spec fn validation_outcome_with(
    entries: Seq<(Seq<char>, Seq<char>)>,
    routes: Seq<RouteRuleView>,
    failures: Seq<Option<Seq<char>>>,
) -> Result<(), ConfigErrorView> {
    if entries.len() == 0 {
        Err(ConfigErrorView::NoBackends)
    } else if routes.len() == 0 {
        Err(ConfigErrorView::NoRoutes)
    } else {
        match first_url_problem(entries, failures) {
            Some(p) => Err(p),
            None => match first_route_problem(routes, entries_map(entries)) {
                Some(p) => Err(p),
                None => Ok(()),
            },
        }
    }
}

/// A configuration is accepted exactly when every check passes.
pub open spec fn config_is_valid(entries: Seq<(Seq<char>, Seq<char>)>, routes: Seq<RouteRuleView>) -> bool {
    &&& entries.len() > 0
    &&& routes.len() > 0
    &&& forall|i: int| 0 <= i < entries.len() ==> url_parse_failure(#[trigger] entries[i].1) is None
    &&& forall|i: int|
        0 <= i < routes.len() ==> route_problem(#[trigger] routes[i], entries_map(entries)) is None
}

proof fn lemma_first_url_problem_none(e: Seq<(Seq<char>, Seq<char>)>, f: Seq<Option<Seq<char>>>)
    requires
        f.len() == e.len(),
    ensures
        first_url_problem(e, f) is None <==> forall|i: int| 0 <= i < e.len() ==> #[trigger] f[i] is None,
    decreases e.len(),
{
    if e.len() > 0 {
        lemma_first_url_problem_none(e.drop_first(), f.drop_first());
        if first_url_problem(e, f) is None {
            assert forall|i: int| 0 <= i < e.len() implies #[trigger] f[i] is None by {
                if i > 0 {
                    assert(f.drop_first()[i - 1] == f[i]);
                }
            }
        }
        if forall|i: int| 0 <= i < e.len() ==> #[trigger] f[i] is None {
            assert(f[0] is None);
            assert forall|i: int| 0 <= i < e.drop_first().len() implies #[trigger] f.drop_first()[i] is None by {
                assert(f.drop_first()[i] == f[i + 1]);
            }
        }
    }
}

proof fn lemma_first_route_problem_none(
    routes: Seq<RouteRuleView>,
    backends: Map<Seq<char>, Seq<char>>,
)
    ensures
        first_route_problem(routes, backends) is None <==> forall|i: int|
            0 <= i < routes.len() ==> route_problem(#[trigger] routes[i], backends) is None,
    decreases routes.len(),
{
    if routes.len() > 0 {
        lemma_first_route_problem_none(routes.drop_first(), backends);
        if first_route_problem(routes, backends) is None {
            assert forall|i: int| 0 <= i < routes.len() implies route_problem(
                #[trigger] routes[i],
                backends,
            ) is None by {
                if i > 0 {
                    assert(routes.drop_first()[i - 1] == routes[i]);
                }
            }
        }
        if forall|i: int| 0 <= i < routes.len() ==> route_problem(#[trigger] routes[i], backends) is None {
            assert(route_problem(routes[0], backends) is None);
            assert forall|i: int| 0 <= i < routes.drop_first().len() implies route_problem(
                #[trigger] routes.drop_first()[i],
                backends,
            ) is None by {
                assert(routes.drop_first()[i] == routes[i + 1]);
            }
        }
    }
}

/// A configuration passes validation exactly when every check holds.
pub proof fn law_validation_accepts_exactly_valid_configs(
    entries: Seq<(Seq<char>, Seq<char>)>,
    routes: Seq<RouteRuleView>,
)
    ensures
        validation_outcome(entries, routes) is Ok <==> config_is_valid(entries, routes),
{
    lemma_first_url_problem_none(entries, url_failures(entries));
    assert forall|i: int| 0 <= i < entries.len() implies (url_parse_failure(#[trigger] entries[i].1) is None
        <==> url_failures(entries)[i] is None) by {}
    lemma_first_route_problem_none(routes, entries_map(entries));
}

impl ConfigError {
    /// The sentence that describes the refusal.
    pub fn message(&self) -> (text: String)
        ensures
            text@ == config_error_message(self@),
    {
        let mut text = String::new();
        match self {
            ConfigError::NoBackends => {
                text.append("proxy config must define at least one backend");
            },
            ConfigError::NoRoutes => {
                text.append("proxy config must define at least one route");
            },
            ConfigError::InvalidBackendUrl { backend, url, reason } => {
                text.append("backend '");
                text.append(backend.as_str());
                text.append("' has an invalid URL '");
                text.append(url.as_str());
                text.append("': ");
                text.append(reason.as_str());
            },
            ConfigError::PrefixWithoutLeadingSlash { prefix } => {
                text.append("route prefix '");
                text.append(prefix.as_str());
                text.append("' must start with '/'");
            },
            ConfigError::UnknownBackend { prefix, backend } => {
                text.append("route prefix '");
                text.append(prefix.as_str());
                text.append("' references unknown backend '");
                text.append(backend.as_str());
                text.append("'");
            },
            ConfigError::ZeroCacheTtl { prefix } => {
                text.append("route prefix '");
                text.append(prefix.as_str());
                text.append("' must use a cache TTL greater than 0 seconds");
            },
        }
        text
    }
}

/// The sentence that describes a refusal.
pub open spec fn config_error_message(e: ConfigErrorView) -> Seq<char> {
    match e {
        ConfigErrorView::NoBackends => "proxy config must define at least one backend"@,
        ConfigErrorView::NoRoutes => "proxy config must define at least one route"@,
        ConfigErrorView::InvalidBackendUrl { backend, url, reason } => "backend '"@ + backend
            + "' has an invalid URL '"@ + url + "': "@ + reason,
        ConfigErrorView::PrefixWithoutLeadingSlash { prefix } => "route prefix '"@ + prefix
            + "' must start with '/'"@,
        ConfigErrorView::UnknownBackend { prefix, backend } => "route prefix '"@ + prefix
            + "' references unknown backend '"@ + backend + "'"@,
        ConfigErrorView::ZeroCacheTtl { prefix } => "route prefix '"@ + prefix
            + "' must use a cache TTL greater than 0 seconds"@,
    }
}

/// The problem with one rule, if any.
fn check_route(route: &RouteRule, backends: &Backends) -> (res: Option<ConfigError>)
    ensures
        match res {
            Some(e) => route_problem(route@, backends@) == Some(e@),
            None => route_problem(route@, backends@) is None,
        },
{
    let prefix = chars_of(route.prefix.as_str());
    if !(prefix.len() > 0 && prefix[0] == '/') {
        return Some(ConfigError::PrefixWithoutLeadingSlash { prefix: route.prefix.clone() });
    }
    if !backends.contains_key(route.backend.as_str()) {
        return Some(
            ConfigError::UnknownBackend {
                prefix: route.prefix.clone(),
                backend: route.backend.clone(),
            },
        );
    }
    match route.cache_ttl_seconds {
        Some(ttl) => {
            if ttl == 0 {
                return Some(ConfigError::ZeroCacheTtl { prefix: route.prefix.clone() });
            }
        },
        None => {},
    }
    None
}

/// Checks a configuration given, for each backend in catalog order, what parsing its URL
/// reported: at least one backend, at least one rule, every backend URL parses, and every
/// rule has a prefix starting with `'/'`, a known backend and a cache lifetime other
/// than 0. The first failed check, in that order, is reported.
pub fn validate_with_url_checks(config: &ProxyConfig, url_checks: &Vec<Result<(), String>>) -> (res: Result<(), ConfigError>)
    requires
        url_checks@.len() == config.backends.entries().len(),
    ensures
        match res {
            Ok(()) => validation_outcome_with(
                config.backends.entries(),
                rule_views(config.routes@),
                check_failures(url_checks@),
            ) is Ok,
            Err(e) => validation_outcome_with(
                config.backends.entries(),
                rule_views(config.routes@),
                check_failures(url_checks@),
            ) == Err::<(), ConfigErrorView>(e@),
        },
{
    let ghost entries = config.backends.entries();
    let ghost routes = rule_views(config.routes@);
    let ghost failures = check_failures(url_checks@);
    if config.backends.is_empty() {
        return Err(ConfigError::NoBackends);
    }
    if config.routes.len() == 0 {
        return Err(ConfigError::NoRoutes);
    }
    let n = config.backends.len();
    let mut i: usize = 0;
    assert(entries.skip(0) =~= entries);
    assert(failures.skip(0) =~= failures);
    while i < n
        invariant
            n == entries.len(),
            n == url_checks@.len(),
            failures == check_failures(url_checks@),
            entries == config.backends.entries(),
            routes == rule_views(config.routes@),
            n > 0,
            config.routes@.len() > 0,
            i <= n,
            first_url_problem(entries, failures) == first_url_problem(
                entries.skip(i as int),
                failures.skip(i as int),
            ),
        decreases n - i,
    {
        let (name, url) = config.backends.entry(i);
        assert(entries.skip(i as int)[0] == entries[i as int]);
        assert(failures.skip(i as int)[0] == failures[i as int]);
        match &url_checks[i] {
            Ok(()) => {},
            Err(reason) => {
                return Err(
                    ConfigError::InvalidBackendUrl {
                        backend: name.clone(),
                        url: url.clone(),
                        reason: reason.clone(),
                    },
                );
            },
        }
        assert(entries.skip(i as int).drop_first() =~= entries.skip(i + 1));
        assert(failures.skip(i as int).drop_first() =~= failures.skip(i + 1));
        i = i + 1;
    }
    assert(entries.skip(n as int).len() == 0);
    let mut j: usize = 0;
    assert(routes.skip(0) =~= routes);
    while j < config.routes.len()
        invariant
            routes == rule_views(config.routes@),
            entries == config.backends.entries(),
            failures == check_failures(url_checks@),
            first_url_problem(entries, failures) is None,
            entries.len() > 0,
            config.routes@.len() > 0,
            j <= config.routes@.len(),
            first_route_problem(routes, config.backends@) == first_route_problem(
                routes.skip(j as int),
                config.backends@,
            ),
        decreases config.routes@.len() - j,
    {
        let problem = check_route(&config.routes[j], &config.backends);
        assert(routes.skip(j as int)[0] == config.routes@[j as int]@);
        match problem {
            Some(e) => {
                return Err(e);
            },
            None => {},
        }
        assert(routes.skip(j as int).drop_first() =~= routes.skip(j + 1));
        j = j + 1;
    }
    assert(routes.skip(config.routes@.len() as int).len() == 0);
    Ok(())
}

/// Checks a configuration: at least one backend, at least one rule, every backend URL
/// parses, and every rule has a prefix starting with `'/'`, a known backend and a
/// cache lifetime other than 0. The first failed check, in that order, is reported.
pub fn validate_proxy_config(config: &ProxyConfig) -> (res: Result<(), ConfigError>)
    ensures
        match res {
            Ok(()) => validation_outcome(config.backends.entries(), rule_views(config.routes@))
                is Ok,
            Err(e) => validation_outcome(config.backends.entries(), rule_views(config.routes@))
                == Err::<(), ConfigErrorView>(e@),
        },
{
    let ghost entries = config.backends.entries();
    let n = config.backends.len();
    let mut checks: Vec<Result<(), String>> = Vec::new();
    let mut i: usize = 0;
    while i < n
        invariant
            n == entries.len(),
            entries == config.backends.entries(),
            i <= n,
            checks@.len() == i,
            check_failures(checks@) == url_failures(entries).take(i as int),
        decreases n - i,
    {
        let (_, url) = config.backends.entry(i);
        let outcome = parse_url(url.as_str());
        checks.push(outcome);
        assert(check_failures(checks@) =~= url_failures(entries).take(i + 1));
        i = i + 1;
    }
    assert(url_failures(entries).take(n as int) =~= url_failures(entries));
    validate_with_url_checks(config, &checks)
}

} // verus!
