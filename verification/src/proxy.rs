use vstd::prelude::*;
use crate::clock::{new_uuid, now_rfc3339};
use crate::table::{
    copy_opt, copy_strings, has_key, key_index, lemma_key_index, lemma_views_update, lookup,
    removed, views, Keyed, Table,
};
use crate::text::{decimal, decimal_chars, push_chars, push_str, str_eq, string_of};

verus! {

/// A proxy that profiles can use.
#[derive(Debug)]
pub struct ProxyConfig {
    pub id: String,
    pub name: String,
    pub proxy_type: String,
    pub host: String,
    pub port: u16,
    pub username: Option<String>,
    pub password_encrypted: Option<String>,
    pub pac_url: Option<String>,
    pub bypass_list: Vec<String>,
    pub is_default: bool,
    pub created_at: String,
    pub updated_at: String,
}

/// A `ProxyConfig` with its bypass list as a sequence.
pub struct ProxyView {
    pub id: String,
    pub name: String,
    pub proxy_type: String,
    pub host: String,
    pub port: u16,
    pub username: Option<String>,
    pub password_encrypted: Option<String>,
    pub pac_url: Option<String>,
    pub bypass_list: Seq<String>,
    pub is_default: bool,
    pub created_at: String,
    pub updated_at: String,
}

impl View for ProxyConfig {
    type V = ProxyView;

    open spec fn view(&self) -> ProxyView {
        ProxyView {
            id: self.id,
            name: self.name,
            proxy_type: self.proxy_type,
            host: self.host,
            port: self.port,
            username: self.username,
            password_encrypted: self.password_encrypted,
            pac_url: self.pac_url,
            bypass_list: self.bypass_list@,
            is_default: self.is_default,
            created_at: self.created_at,
            updated_at: self.updated_at,
        }
    }
}

impl Keyed for ProxyConfig {
    open spec fn key(&self) -> Seq<char> {
        self.id@
    }

    fn key_string(&self) -> (r: &String) {
        &self.id
    }

    fn duplicate(&self) -> (r: Self) {
        ProxyConfig {
            id: self.id.clone(),
            name: self.name.clone(),
            proxy_type: self.proxy_type.clone(),
            host: self.host.clone(),
            port: self.port,
            username: copy_opt(&self.username),
            password_encrypted: copy_opt(&self.password_encrypted),
            pac_url: copy_opt(&self.pac_url),
            bypass_list: copy_strings(&self.bypass_list),
            is_default: self.is_default,
            created_at: self.created_at.clone(),
            updated_at: self.updated_at.clone(),
        }
    }
}

/// What a connection test through a proxy found.
#[derive(Debug)]
pub struct ProxyTestResult {
    pub success: bool,
    pub latency_ms: Option<u64>,
    pub error: Option<String>,
    pub ip: Option<String>,
}

/// No two proxies are the default.
pub open spec fn at_most_one_default(rows: Seq<ProxyConfig>) -> bool {
    forall|i: int, j: int|
        0 <= i < rows.len() && 0 <= j < rows.len() && i != j ==> !(#[trigger] rows[i].is_default
            && #[trigger] rows[j].is_default)
}

/// `p` as `update` leaves it.
pub open spec fn updated_proxy(
    p: ProxyView,
    name: Option<String>,
    host: Option<String>,
    port: Option<u16>,
    username: Option<Option<String>>,
    password: Option<Option<String>>,
    pac_url: Option<Option<String>>,
    bypass_list: Option<Seq<String>>,
    make_default: bool,
    now: String,
) -> ProxyView {
    ProxyView {
        name: match name { Some(n) => n, None => p.name },
        host: match host { Some(h) => h, None => p.host },
        port: match port { Some(x) => x, None => p.port },
        username: match username { Some(u) => u, None => p.username },
        password_encrypted: match password { Some(x) => x, None => p.password_encrypted },
        pac_url: match pac_url { Some(x) => x, None => p.pac_url },
        bypass_list: match bypass_list { Some(b) => b, None => p.bypass_list },
        is_default: make_default,
        updated_at: now,
        ..p
    }
}

/// `"{type}://{host}:{port}"`, the address a connection test goes through.
pub open spec fn proxy_url_spec(p: ProxyView) -> Seq<char> {
    p.proxy_type@ + "://"@ + p.host@ + ":"@ + decimal(p.port as nat)
}

/// The proxies, by id.
pub struct ProxyManager {
    pub proxies: Table<ProxyConfig>,
}

impl ProxyManager {
    pub open spec fn wf(&self) -> bool {
        self.proxies.wf()
    }

    /// The proxies, in storage order.
    pub open spec fn rows(&self) -> Seq<ProxyConfig> {
        self.proxies.rows@
    }

    /// No proxies.
    pub fn new() -> (m: Self)
        ensures
            m.wf(),
            m.rows() == Seq::<ProxyConfig>::empty(),
    {
        ProxyManager { proxies: Table::new() }
    }

    /// Stores a proxy read from disk, replacing one stored under the same id.
    pub fn put(&mut self, p: ProxyConfig)
        requires
            old(self).wf(),
        ensures
            final(self).wf(),
            final(self).rows() == crate::table::upserted(old(self).rows(), p),
    {
        self.proxies.upsert(p);
    }

    /// Sets every proxy's default flag off.
    fn clear_defaults(&mut self)
        requires
            old(self).wf(),
        ensures
            final(self).wf(),
            final(self).rows().len() == old(self).rows().len(),
            forall|k: int| 0 <= k < old(self).rows().len() ==> #[trigger] final(self).rows()[k]@
                == (ProxyView { is_default: false, ..old(self).rows()[k]@ }),
            forall|k: int| 0 <= k < old(self).rows().len() ==> #[trigger] final(self).rows()[k].key()
                == old(self).rows()[k].key(),
    {
        let n = self.proxies.rows.len();
        let mut i: usize = 0;
        while i < n
            invariant
                n == old(self).rows().len(),
                0 <= i <= n,
                self.wf(),
                self.rows().len() == n,
                forall|k: int| 0 <= k < i ==> #[trigger] self.rows()[k]@ == (ProxyView { is_default: false, ..old(self).rows()[k]@ }),
                forall|k: int| i <= k < n ==> #[trigger] self.rows()[k] == old(self).rows()[k],
                forall|k: int| 0 <= k < n ==> #[trigger] self.rows()[k].key() == old(self).rows()[k].key(),
            decreases n - i,
        {
            let mut p = self.proxies.rows[i].duplicate();
            p.is_default = false;
            self.proxies.set_at(i, p);
            i = i + 1;
        }
    }

    /// Creates a proxy with a fresh id; when it is the default, no other proxy stays one.
    pub fn create(
        &mut self,
        name: String,
        proxy_type: String,
        host: String,
        port: u16,
        username: Option<String>,
        password: Option<String>,
        pac_url: Option<String>,
        bypass_list: Vec<String>,
        is_default: bool,
    ) -> (c: ProxyConfig)
        requires
            old(self).wf(),
        ensures
            final(self).wf(),
            c.name == name && c.proxy_type == proxy_type && c.host == host && c.port == port,
            c.username == username && c.password_encrypted == password && c.pac_url == pac_url,
            c.bypass_list@ == bypass_list@ && c.is_default == is_default,
            c.created_at == c.updated_at,
            c.id@.len() == 36,
            lookup(final(self).rows(), c.id@) matches Some(x) && x@ == c@,
            forall|k: Seq<char>| k != c.id@ ==> (#[trigger] lookup(final(self).rows(), k) matches Some(x)
                ==> lookup(old(self).rows(), k) matches Some(y) && x@ == (ProxyView {
                is_default: y.is_default && !is_default,
                ..y@
            })),
            forall|k: Seq<char>| k != c.id@ ==> (#[trigger] lookup(old(self).rows(), k) is Some
                ==> lookup(final(self).rows(), k) is Some),
            at_most_one_default(old(self).rows()) ==> at_most_one_default(final(self).rows()),
    {
        let id = new_uuid();
        let now = now_rfc3339();
        let config = ProxyConfig {
            id,
            name,
            proxy_type,
            host,
            port,
            username,
            password_encrypted: password,
            pac_url,
            bypass_list,
            is_default,
            created_at: now.clone(),
            updated_at: now,
        };
        if is_default {
            self.clear_defaults();
        }
        let ghost mid = self.rows();
        let ret = config.duplicate();
        self.proxies.upsert(config);
        proof {
            let rows = self.rows();
            let old_rows = old(self).rows();
            crate::table::lemma_lookup_upserted(mid, config, config.id@);
            assert forall|k: Seq<char>| k != ret.id@ implies (#[trigger] lookup(rows, k) matches Some(x)
                ==> lookup(old_rows, k) matches Some(y) && x@ == (ProxyView { is_default: y.is_default && !is_default, ..y@ })) by {
                crate::table::lemma_lookup_upserted(mid, config, k);
                if has_key(mid, k) {
                    let j = key_index(mid, k);
                    assert(mid[j].key() == old_rows[j].key());
                    lemma_key_index(old_rows, j);
                }
            }
            assert forall|k: Seq<char>| k != ret.id@ && #[trigger] lookup(old_rows, k) is Some implies lookup(
                rows,
                k,
            ) is Some by {
                crate::table::lemma_lookup_upserted(mid, config, k);
                if has_key(old_rows, k) {
                    let j = key_index(old_rows, k);
                    assert(mid[j].key() == old_rows[j].key());
                    assert(has_key(mid, k));
                }
            }
            if at_most_one_default(old_rows) {
                assert forall|i: int, j: int|
                    0 <= i < rows.len() && 0 <= j < rows.len() && i != j implies !(#[trigger] rows[i].is_default
                        && #[trigger] rows[j].is_default) by {
                    if has_key(mid, config.id@) {
                        let x = key_index(mid, config.id@);
                        if i != x {
                            assert(rows[i] == mid[i]);
                        }
                        if j != x {
                            assert(rows[j] == mid[j]);
                        }
                        if is_default {
                            assert(mid[i]@.is_default == false || i == x);
                        }
                    } else {
                        if i < mid.len() {
                            assert(rows[i] == mid[i]);
                        }
                        if j < mid.len() {
                            assert(rows[j] == mid[j]);
                        }
                        if is_default {
                            if i < mid.len() {
                                assert(mid[i]@.is_default == false);
                            }
                            if j < mid.len() {
                                assert(mid[j]@.is_default == false);
                            }
                        }
                    }
                    if !is_default {
                        if i < mid.len() && j < mid.len() {
                            assert(mid[i] == old_rows[i]);
                            assert(mid[j] == old_rows[j]);
                        }
                    }
                }
            }
        }
        ret
    }

    /// All proxies.
    pub fn list(&self) -> (r: Vec<ProxyConfig>)
        ensures
            views(r@) == views(self.rows()),
    {
        self.proxies.copies()
    }

    /// The proxy stored under `id`.
    pub fn get(&self, id: &str) -> (r: Option<ProxyConfig>)
        requires
            self.wf(),
        ensures
            proxy_got(self.rows(), id@, r),
    {
        match self.proxies.get(id) {
            Some(p) => Some(p.duplicate()),
            None => None,
        }
    }

    /// Changes the given fields of a proxy. It becomes the default exactly when `is_default` is
    /// `Some(true)`, and then no other proxy stays one.
    pub fn update(
        &mut self,
        id: &str,
        name: Option<String>,
        host: Option<String>,
        port: Option<u16>,
        username: Option<Option<String>>,
        password: Option<Option<String>>,
        pac_url: Option<Option<String>>,
        bypass_list: Option<Vec<String>>,
        is_default: Option<bool>,
    ) -> (r: Result<ProxyConfig, String>)
        requires
            old(self).wf(),
        ensures
            final(self).wf(),
            at_most_one_default(old(self).rows()) ==> at_most_one_default(final(self).rows()),
            match lookup(old(self).rows(), id@) {
                None => r matches Err(e) && e@ == "Proxy not found"@,
                Some(p) => r matches Ok(q) && q@ == updated_proxy(
                    p@,
                    name,
                    host,
                    port,
                    username,
                    password,
                    pac_url,
                    match bypass_list {
                        Some(b) => Some(b@),
                        None => None::<Seq<String>>,
                    },
                    is_default == Some(true),
                    q.updated_at,
                ) && (lookup(final(self).rows(), id@) matches Some(x) && x@ == q@),
            },
            lookup(old(self).rows(), id@) is None ==> final(self).rows() == old(self).rows(),
            lookup(old(self).rows(), id@) is Some ==> forall|k: Seq<char>| k != id@ ==> (#[trigger] lookup(final(self).rows(), k) matches Some(x)
                ==> lookup(old(self).rows(), k) matches Some(y) && x@ == (ProxyView {
                is_default: y.is_default && is_default != Some(true),
                ..y@
            })),
    {
        let make_default = match is_default {
            Some(b) => b,
            None => false,
        };
        let found = self.proxies.find(id);
        if found.is_none() {
            return Err("Proxy not found".to_string());
        }
        let i = found.unwrap();
        proof {
            lemma_key_index(old(self).rows(), i as int);
        }
        if make_default {
            self.clear_defaults();
        }
        let ghost mid = self.rows();
        proof {
            assert(mid[i as int].key() == id@);
            assert(mid[i as int]@ == (ProxyView { is_default: mid[i as int].is_default, ..old(self).rows()[i as int]@ }));
        }
        match Some(i) {
            None => Err("Proxy not found".to_string()),
            Some(i) => {
                let mut c = self.proxies.rows[i].duplicate();
                if let Some(n) = name {
                    c.name = n;
                }
                if let Some(h) = host {
                    c.host = h;
                }
                if let Some(p) = port {
                    c.port = p;
                }
                if let Some(u) = username {
                    c.username = u;
                }
                if let Some(p) = password {
                    c.password_encrypted = p;
                }
                if let Some(p) = pac_url {
                    c.pac_url = p;
                }
                if let Some(b) = bypass_list {
                    c.bypass_list = b;
                }
                c.is_default = make_default;
                c.updated_at = now_rfc3339();
                let ret = c.duplicate();
                self.proxies.set_at(i, c);
                proof {
                    let rows = self.rows();
                    let old_rows = old(self).rows();
                    lemma_key_index(old_rows, i as int);
                    lemma_key_index(rows, i as int);
                    assert forall|k: Seq<char>| k != id@ implies (#[trigger] lookup(rows, k) matches Some(x)
                        ==> lookup(old_rows, k) matches Some(y) && x@ == (ProxyView { is_default: y.is_default && is_default != Some(true), ..y@ })) by {
                        if has_key(rows, k) {
                            let j = key_index(rows, k);
                            assert(j != i);
                            assert(rows[j] == mid[j]);
                            lemma_key_index(old_rows, j);
                        }
                    }
                    if at_most_one_default(old_rows) {
                        assert forall|a: int, b: int|
                            0 <= a < rows.len() && 0 <= b < rows.len() && a != b implies !(#[trigger] rows[a].is_default
                                && #[trigger] rows[b].is_default) by {
                            if a != i {
                                assert(rows[a] == mid[a]);
                            }
                            if b != i {
                                assert(rows[b] == mid[b]);
                            }
                            if !make_default {
                                if a != i && b != i {
                                    assert(mid[a] == old_rows[a]);
                                    assert(mid[b] == old_rows[b]);
                                }
                            } else {
                                if a != i {
                                    assert(mid[a]@.is_default == false);
                                }
                                if b != i {
                                    assert(mid[b]@.is_default == false);
                                }
                            }
                        }
                    }
                }
                Ok(ret)
            },
        }
    }

    /// Deletes a proxy.
    pub fn delete(&mut self, id: &str)
        requires
            old(self).wf(),
        ensures
            final(self).wf(),
            final(self).rows() == removed(old(self).rows(), id@),
            at_most_one_default(old(self).rows()) ==> at_most_one_default(final(self).rows()),
    {
        self.proxies.remove_key(id);
        proof {
            let rows = self.rows();
            let old_rows = old(self).rows();
            if has_key(old_rows, id@) && at_most_one_default(old_rows) {
                let x = key_index(old_rows, id@);
                assert forall|a: int, b: int|
                    0 <= a < rows.len() && 0 <= b < rows.len() && a != b implies !(#[trigger] rows[a].is_default
                        && #[trigger] rows[b].is_default) by {
                    let oa = if a < x { a } else { a + 1 };
                    let ob = if b < x { b } else { b + 1 };
                    assert(rows[a] == old_rows[oa]);
                    assert(rows[b] == old_rows[ob]);
                }
            }
        }
    }

    /// Makes the proxy whose id is `id` the only default.
    pub fn set_default(&mut self, id: &str)
        requires
            old(self).wf(),
        ensures
            final(self).wf(),
            final(self).rows().len() == old(self).rows().len(),
            forall|k: int| 0 <= k < old(self).rows().len() ==> #[trigger] final(self).rows()[k]@
                == (ProxyView { is_default: old(self).rows()[k].id@ == id@, ..old(self).rows()[k]@ }),
            at_most_one_default(final(self).rows()),
    {
        let n = self.proxies.rows.len();
        let mut i: usize = 0;
        while i < n
            invariant
                n == old(self).rows().len(),
                0 <= i <= n,
                self.wf(),
                self.rows().len() == n,
                forall|k: int| 0 <= k < i ==> #[trigger] self.rows()[k]@ == (ProxyView { is_default: old(self).rows()[k].id@ == id@, ..old(self).rows()[k]@ }),
                forall|k: int| i <= k < n ==> #[trigger] self.rows()[k] == old(self).rows()[k],
            decreases n - i,
        {
            let mut p = self.proxies.rows[i].duplicate();
            p.is_default = str_eq(p.id.as_str(), id);
            self.proxies.set_at(i, p);
            i = i + 1;
        }
        proof {
            let rows = self.rows();
            assert forall|a: int, b: int|
                0 <= a < rows.len() && 0 <= b < rows.len() && a != b implies !(#[trigger] rows[a].is_default
                    && #[trigger] rows[b].is_default) by {
                assert(rows[a]@.is_default == (old(self).rows()[a].id@ == id@));
                assert(rows[b]@.is_default == (old(self).rows()[b].id@ == id@));
                assert(old(self).rows()[a].key() != old(self).rows()[b].key());
            }
        }
    }

    /// The address a connection test of proxy `id` goes through.
    pub fn proxy_url(&self, id: &str) -> (r: Result<String, String>)
        requires
            self.wf(),
        ensures
            match lookup(self.rows(), id@) {
                None => r matches Err(e) && e@ == "Proxy not found"@,
                Some(p) => r matches Ok(u) && u@ == proxy_url_spec(p@),
            },
    {
        match self.proxies.get(id) {
            None => Err("Proxy not found".to_string()),
            Some(p) => {
                let mut v: Vec<char> = Vec::new();
                push_str(&mut v, p.proxy_type.as_str());
                push_str(&mut v, "://");
                push_str(&mut v, p.host.as_str());
                push_str(&mut v, ":");
                push_chars(&mut v, &decimal_chars(p.port as u64));
                Ok(string_of(&v))
            },
        }
    }
}


/// What a connection test through a proxy reports: the round trip in milliseconds and the
/// address the test service saw (when its reply could be read) for a request that went through,
/// the error text for one that did not.
pub fn connection_test_result(outcome: Result<(u64, Option<String>), String>) -> (r: ProxyTestResult)
    ensures
        match outcome {
            Ok((ms, ip)) => r.success && r.latency_ms == Some(ms) && r.error is None && r.ip == ip,
            Err(e) => !r.success && r.latency_ms is None && r.error == Some(e) && r.ip is None,
        },
{
    match outcome {
        Ok((ms, ip)) => ProxyTestResult { success: true, latency_ms: Some(ms), error: None, ip },
        Err(e) => ProxyTestResult { success: false, latency_ms: None, error: Some(e), ip: None },
    }
}

/// What `get` answers for `id` from the stored proxies `rows`: a copy of the proxy stored under
/// it, or none.
pub open spec fn proxy_got(rows: Seq<ProxyConfig>, id: Seq<char>, r: Option<ProxyConfig>) -> bool {
    match lookup(rows, id) {
        Some(p) => r matches Some(q) && q@ == p@,
        None => r is None,
    }
}

/// Reading a proxy back after creating it gives it field by field: `create` stores the proxy it
/// returns under its id, and `get` of that id answers a copy of it.
pub proof fn law_proxy_read_after_create(rows: Seq<ProxyConfig>, c: ProxyConfig, r: Option<ProxyConfig>)
    requires
        lookup(rows, c.id@) matches Some(x) && x@ == c@,
        proxy_got(rows, c.id@, r),
    ensures
        r matches Some(q) && q@ == c@,
{
}

} // verus!
