use vstd::prelude::*;
use crate::clock::{new_uuid, now_rfc3339};
use crate::registry::ProfileRegistry;
use crate::table::{
    copy_all, copy_opt, copy_strings, has_key, key_index, lemma_key_index, lemma_views_push, lemma_views_update, lookup,
    removed, upserted, views, Keyed, Table,
};
use crate::csv::strings;
use crate::text::{chars_of, decimal, decimal_chars, decimal_string, push_chars, push_str, str_eq, string_of};

verus! {

/// How a profile reaches the network through a proxy.
#[derive(Debug)]
pub struct ProxyConfig {
    pub host: String,
    pub port: u16,
    pub proxy_type: String,
    pub username: Option<String>,
    pub password: Option<String>,
    pub pac_url: Option<String>,
    pub bypass_list: Vec<String>,
}

/// A `ProxyConfig` with its lists as sequences.
pub struct ProxyConfigView {
    pub host: String,
    pub port: u16,
    pub proxy_type: String,
    pub username: Option<String>,
    pub password: Option<String>,
    pub pac_url: Option<String>,
    pub bypass_list: Seq<String>,
}

impl View for ProxyConfig {
    type V = ProxyConfigView;

    open spec fn view(&self) -> ProxyConfigView {
        ProxyConfigView {
            host: self.host,
            port: self.port,
            proxy_type: self.proxy_type,
            username: self.username,
            password: self.password,
            pac_url: self.pac_url,
            bypass_list: self.bypass_list@,
        }
    }
}

impl ProxyConfig {
    /// A copy.
    pub fn duplicate(&self) -> (r: Self)
        ensures
            r@ == self@,
    {
        ProxyConfig {
            host: self.host.clone(),
            port: self.port,
            proxy_type: self.proxy_type.clone(),
            username: copy_opt(&self.username),
            password: copy_opt(&self.password),
            pac_url: copy_opt(&self.pac_url),
            bypass_list: copy_strings(&self.bypass_list),
        }
    }
}

/// Login data of a profile.
#[derive(Debug)]
pub struct Credentials {
    pub email: String,
    pub password: String,
    pub url: String,
}

impl Credentials {
    /// An exact copy.
    pub fn duplicate(&self) -> (r: Self)
        ensures
            r == *self,
    {
        Credentials { email: self.email.clone(), password: self.password.clone(), url: self.url.clone() }
    }
}

/// The browser fingerprint a profile presents.
#[derive(Debug)]
pub struct FingerprintConfig {
    pub enabled: bool,
    pub user_agent: String,
    pub platform: String,
    pub resolution: String,
    pub timezone: String,
    pub geolocation: String,
    pub webgl_vendor: String,
    pub webgl_renderer: String,
    pub hardware_concurrency: u32,
    pub device_memory: u32,
    pub canvas_noise: bool,
    pub audio_noise: bool,
    pub fonts: Vec<String>,
    pub language: String,
}

/// A `FingerprintConfig` with its font list as a sequence.
pub struct FingerprintView {
    pub enabled: bool,
    pub user_agent: String,
    pub platform: String,
    pub resolution: String,
    pub timezone: String,
    pub geolocation: String,
    pub webgl_vendor: String,
    pub webgl_renderer: String,
    pub hardware_concurrency: u32,
    pub device_memory: u32,
    pub canvas_noise: bool,
    pub audio_noise: bool,
    pub fonts: Seq<String>,
    pub language: String,
}

impl View for FingerprintConfig {
    type V = FingerprintView;

    open spec fn view(&self) -> FingerprintView {
        FingerprintView {
            enabled: self.enabled,
            user_agent: self.user_agent,
            platform: self.platform,
            resolution: self.resolution,
            timezone: self.timezone,
            geolocation: self.geolocation,
            webgl_vendor: self.webgl_vendor,
            webgl_renderer: self.webgl_renderer,
            hardware_concurrency: self.hardware_concurrency,
            device_memory: self.device_memory,
            canvas_noise: self.canvas_noise,
            audio_noise: self.audio_noise,
            fonts: self.fonts@,
            language: self.language,
        }
    }
}

impl FingerprintConfig {
    /// A copy.
    pub fn duplicate(&self) -> (r: Self)
        ensures
            r@ == self@,
    {
        FingerprintConfig {
            enabled: self.enabled,
            user_agent: self.user_agent.clone(),
            platform: self.platform.clone(),
            resolution: self.resolution.clone(),
            timezone: self.timezone.clone(),
            geolocation: self.geolocation.clone(),
            webgl_vendor: self.webgl_vendor.clone(),
            webgl_renderer: self.webgl_renderer.clone(),
            hardware_concurrency: self.hardware_concurrency,
            device_memory: self.device_memory,
            canvas_noise: self.canvas_noise,
            audio_noise: self.audio_noise,
            fonts: copy_strings(&self.fonts),
            language: self.language.clone(),
        }
    }

    /// The default fingerprint: disabled, empty texts, 4 cores, 8 GB, canvas and audio noise on.
    pub fn default_config() -> (r: Self)
        ensures
            !r.enabled,
            r.user_agent@.len() == 0,
            r.platform@.len() == 0,
            r.resolution@.len() == 0,
            r.timezone@.len() == 0,
            r.geolocation@.len() == 0,
            r.webgl_vendor@.len() == 0,
            r.webgl_renderer@.len() == 0,
            r.hardware_concurrency == 4,
            r.device_memory == 8,
            r.canvas_noise,
            r.audio_noise,
            r.fonts@.len() == 0,
            r.language@.len() == 0,
    {
        FingerprintConfig {
            enabled: false,
            user_agent: String::new(),
            platform: String::new(),
            resolution: String::new(),
            timezone: String::new(),
            geolocation: String::new(),
            webgl_vendor: String::new(),
            webgl_renderer: String::new(),
            hardware_concurrency: 4,
            device_memory: 8,
            canvas_noise: true,
            audio_noise: true,
            fonts: Vec::new(),
            language: String::new(),
        }
    }
}

/// A named, coloured group of profiles.
#[derive(Debug)]
pub struct ProfileGroup {
    pub id: String,
    pub name: String,
    pub color: String,
    pub sort_order: u32,
    pub created_at: String,
}

impl View for ProfileGroup {
    type V = ProfileGroup;

    open spec fn view(&self) -> ProfileGroup {
        *self
    }
}

impl Keyed for ProfileGroup {
    open spec fn key(&self) -> Seq<char> {
        self.id@
    }

    fn key_string(&self) -> (r: &String) {
        &self.id
    }

    fn duplicate(&self) -> (r: Self) {
        ProfileGroup {
            id: self.id.clone(),
            name: self.name.clone(),
            color: self.color.clone(),
            sort_order: self.sort_order,
            created_at: self.created_at.clone(),
        }
    }
}

/// A browser extension attached to a profile.
#[derive(Debug)]
pub struct Extension {
    pub id: String,
    pub name: String,
    pub description: String,
    pub version: String,
    pub enabled: bool,
    pub install_url: String,
}

impl View for Extension {
    type V = Extension;

    open spec fn view(&self) -> Extension {
        *self
    }
}

impl Keyed for Extension {
    open spec fn key(&self) -> Seq<char> {
        self.id@
    }

    fn key_string(&self) -> (r: &String) {
        &self.id
    }

    fn duplicate(&self) -> (r: Self) {
        Extension {
            id: self.id.clone(),
            name: self.name.clone(),
            description: self.description.clone(),
            version: self.version.clone(),
            enabled: self.enabled,
            install_url: self.install_url.clone(),
        }
    }
}

/// An isolated browser profile.
#[derive(Debug)]
pub struct Profile {
    pub id: String,
    pub name: String,
    pub color: String,
    pub description: String,
    pub tags: Vec<String>,
    pub status: String,
    pub proxy: Option<ProxyConfig>,
    pub credentials: Option<Credentials>,
    pub fingerprint: Option<FingerprintConfig>,
    pub local_dir: String,
    pub created_at: String,
    pub updated_at: String,
    pub last_opened_at: Option<String>,
    pub group_id: Option<String>,
    pub extensions: Vec<Extension>,
}

/// A `Profile` with its lists as sequences and its parts by their views.
pub struct ProfileView {
    pub id: String,
    pub name: String,
    pub color: String,
    pub description: String,
    pub tags: Seq<String>,
    pub status: String,
    pub proxy: Option<ProxyConfigView>,
    pub credentials: Option<Credentials>,
    pub fingerprint: Option<FingerprintView>,
    pub local_dir: String,
    pub created_at: String,
    pub updated_at: String,
    pub last_opened_at: Option<String>,
    pub group_id: Option<String>,
    pub extensions: Seq<Extension>,
}

/// The view of an optional proxy.
pub open spec fn opt_proxy_view(p: Option<ProxyConfig>) -> Option<ProxyConfigView> {
    match p {
        Some(x) => Some(x@),
        None => None,
    }
}

/// The view of an optional fingerprint.
pub open spec fn opt_fp_view(f: Option<FingerprintConfig>) -> Option<FingerprintView> {
    match f {
        Some(x) => Some(x@),
        None => None,
    }
}

impl View for Profile {
    type V = ProfileView;

    open spec fn view(&self) -> ProfileView {
        ProfileView {
            id: self.id,
            name: self.name,
            color: self.color,
            description: self.description,
            tags: self.tags@,
            status: self.status,
            proxy: opt_proxy_view(self.proxy),
            credentials: self.credentials,
            fingerprint: opt_fp_view(self.fingerprint),
            local_dir: self.local_dir,
            created_at: self.created_at,
            updated_at: self.updated_at,
            last_opened_at: self.last_opened_at,
            group_id: self.group_id,
            extensions: self.extensions@,
        }
    }
}

impl Keyed for Profile {
    open spec fn key(&self) -> Seq<char> {
        self.id@
    }

    fn key_string(&self) -> (r: &String) {
        &self.id
    }

    fn duplicate(&self) -> (r: Self) {
        Profile {
            id: self.id.clone(),
            name: self.name.clone(),
            color: self.color.clone(),
            description: self.description.clone(),
            tags: copy_strings(&self.tags),
            status: self.status.clone(),
            proxy: match &self.proxy {
                Some(p) => Some(p.duplicate()),
                None => None,
            },
            credentials: match &self.credentials {
                Some(c) => Some(c.duplicate()),
                None => None,
            },
            fingerprint: match &self.fingerprint {
                Some(f) => Some(f.duplicate()),
                None => None,
            },
            local_dir: self.local_dir.clone(),
            created_at: self.created_at.clone(),
            updated_at: self.updated_at.clone(),
            last_opened_at: copy_opt(&self.last_opened_at),
            group_id: copy_opt(&self.group_id),
            extensions: copy_exts(&self.extensions),
        }
    }
}

/// Copies of a list of extensions.
pub fn copy_exts(v: &Vec<Extension>) -> (r: Vec<Extension>)
    ensures
        r@ == v@,
{
    let r = copy_all(v);
    proof {
        lemma_ext_views(r@, v@);
    }
    r
}

/// The status of a profile whose browser is not running.
pub open spec fn available_status() -> Seq<char> {
    seq!['a', 'v', 'a', 'i', 'l', 'a', 'b', 'l', 'e']
}

/// The status of a profile whose browser is running.
pub open spec fn in_use_status() -> Seq<char> {
    seq!['i', 'n', '_', 'u', 's', 'e']
}

fn available_string() -> (s: String)
    ensures
        s@ == available_status(),
{
    let v: Vec<char> = vec!['a', 'v', 'a', 'i', 'l', 'a', 'b', 'l', 'e'];
    string_of(&v)
}

fn in_use_string() -> (s: String)
    ensures
        s@ == in_use_status(),
{
    let v: Vec<char> = vec!['i', 'n', '_', 'u', 's', 'e'];
    string_of(&v)
}

fn is_in_use(s: &String) -> (b: bool)
    ensures
        b == (s@ == in_use_status()),
{
    let u = in_use_string();
    *s == u
}

/// The profiles of the library, stored under their ids.
pub struct ProfileStore {
    pub profiles: Table<Profile>,
}

/// The groups of the library, stored under their ids.
pub struct GroupStore {
    pub groups: Table<ProfileGroup>,
}

/// Profiles and groups, the state behind the profile commands.
pub struct ProfileManager {
    pub store: ProfileStore,
    pub group_store: GroupStore,
}

/// The largest sort order among `gs`, 0 for none.
pub open spec fn max_sort_order(gs: Seq<ProfileGroup>) -> nat
    decreases gs.len(),
{
    if gs.len() == 0 {
        0
    } else {
        let m = max_sort_order(gs.drop_last());
        if gs.last().sort_order > m {
            gs.last().sort_order as nat
        } else {
            m
        }
    }
}

/// The view of optional tags.
pub open spec fn opt_tags_view(t: Option<Vec<String>>) -> Option<Seq<String>> {
    match t {
        Some(v) => Some(v@),
        None => None,
    }
}

/// `p` with the fields that `update` sets.
pub open spec fn updated_view(
    p: ProfileView,
    name: Option<String>,
    color: Option<String>,
    description: Option<String>,
    tags: Option<Seq<String>>,
    now: String,
) -> ProfileView {
    ProfileView {
        name: match name { Some(n) => n, None => p.name },
        color: match color { Some(c) => c, None => p.color },
        description: match description { Some(d) => d, None => p.description },
        tags: match tags { Some(t) => t, None => p.tags },
        updated_at: now,
        ..p
    }
}

/// `exts` without the extensions whose id is `ext_id`.
pub open spec fn without_ext(exts: Seq<Extension>, ext_id: Seq<char>) -> Seq<Extension> {
    exts.filter(|e: Extension| e.id@ != ext_id)
}

/// The position of the first extension whose id is `ext_id`, or -1.
pub open spec fn first_ext(exts: Seq<Extension>, ext_id: Seq<char>) -> int
    decreases exts.len(),
{
    if exts.len() == 0 {
        -1
    } else if first_ext(exts.drop_last(), ext_id) >= 0 {
        first_ext(exts.drop_last(), ext_id)
    } else if exts.last().id@ == ext_id {
        exts.len() - 1
    } else {
        -1
    }
}

/// `exts` with the first extension whose id is `ext_id` switched to `enabled`.
pub open spec fn toggle_first(exts: Seq<Extension>, ext_id: Seq<char>, enabled: bool) -> Seq<Extension> {
    let i = first_ext(exts, ext_id);
    if i >= 0 {
        exts.update(i, Extension { enabled: enabled, ..exts[i] })
    } else {
        exts
    }
}

/// A profile view moved out of group `gid`, if it was in it.
pub open spec fn ungroup_view(p: ProfileView, gid: Seq<char>) -> ProfileView {
    if p.group_id matches Some(g) && g@ == gid {
        ProfileView { group_id: None, ..p }
    } else {
        p
    }
}

proof fn lemma_first_ext(exts: Seq<Extension>, ext_id: Seq<char>, i: int)
    requires
        0 <= i <= exts.len(),
        forall|k: int| 0 <= k < i ==> #[trigger] exts[k].id@ != ext_id,
    ensures
        first_ext(exts.take(i), ext_id) == -1,
    decreases i,
{
    if i > 0 {
        let t = exts.take(i);
        assert(t.drop_last() == exts.take(i - 1));
        lemma_first_ext(exts, ext_id, i - 1);
    } else {
        assert(exts.take(0).len() == 0);
    }
}

proof fn lemma_first_ext_hit(exts: Seq<Extension>, ext_id: Seq<char>, i: int)
    requires
        0 <= i < exts.len(),
        first_ext(exts.take(i), ext_id) == -1,
        exts[i].id@ == ext_id,
    ensures
        first_ext(exts, ext_id) == i,
    decreases exts.len(),
{
    if exts.len() == i + 1 {
        assert(exts.drop_last() == exts.take(i));
    } else {
        let d = exts.drop_last();
        assert(d.take(i) == exts.take(i));
        lemma_first_ext_hit(d, ext_id, i);
    }
}

proof fn lemma_ext_views(a: Seq<Extension>, b: Seq<Extension>)
    requires
        views(a) == views(b),
    ensures
        a == b,
{
    assert(views(a).len() == a.len());
    assert(views(b).len() == b.len());
    assert forall|k: int| 0 <= k < a.len() implies a[k] == b[k] by {
        assert(views(a)[k] == views(b)[k]);
        assert(views(a)[k] == a[k]@);
        assert(views(b)[k] == b[k]@);
        assert(a[k]@ == a[k]);
        assert(b[k]@ == b[k]);
    }
    assert(a =~= b);
}

impl ProfileStore {
    pub open spec fn wf(&self) -> bool {
        self.profiles.wf()
    }
}

impl GroupStore {
    pub open spec fn wf(&self) -> bool {
        self.groups.wf()
    }
}

impl ProfileManager {
    /// Profiles and groups each have unique ids.
    pub open spec fn wf(&self) -> bool {
        self.store.wf() && self.group_store.wf()
    }

    /// The profiles, in storage order.
    pub open spec fn profiles(&self) -> Seq<Profile> {
        self.store.profiles.rows@
    }

    /// The groups, in storage order.
    pub open spec fn groups(&self) -> Seq<ProfileGroup> {
        self.group_store.groups.rows@
    }

    /// A manager with no profiles and no groups.
    pub fn new() -> (m: Self)
        ensures
            m.wf(),
            m.profiles() == Seq::<Profile>::empty(),
            m.groups() == Seq::<ProfileGroup>::empty(),
    {
        ProfileManager {
            store: ProfileStore { profiles: Table::new() },
            group_store: GroupStore { groups: Table::new() },
        }
    }

    /// Stores a profile read from disk, replacing one stored under the same id.
    pub fn put_profile(&mut self, p: Profile)
        requires
            old(self).wf(),
        ensures
            final(self).wf(),
            final(self).profiles() == upserted(old(self).profiles(), p),
            final(self).groups() == old(self).groups(),
    {
        self.store.profiles.upsert(p);
    }

    /// Stores a group read from disk, replacing one stored under the same id.
    pub fn put_group(&mut self, g: ProfileGroup)
        requires
            old(self).wf(),
        ensures
            final(self).wf(),
            final(self).groups() == upserted(old(self).groups(), g),
            final(self).profiles() == old(self).profiles(),
    {
        self.group_store.groups.upsert(g);
    }

    /// All groups.
    pub fn list_groups(&self) -> (r: Vec<ProfileGroup>)
        ensures
            views(r@) == views(self.groups()),
    {
        self.group_store.groups.copies()
    }

    /// Creates a group that sorts after every existing one.
    pub fn create_group(&mut self, name: String, color: String) -> (g: ProfileGroup)
        requires
            old(self).wf(),
            max_sort_order(old(self).groups()) < u32::MAX,
        ensures
            final(self).wf(),
            g.name == name,
            g.color == color,
            g.sort_order == max_sort_order(old(self).groups()) + 1,
            g.id@.len() >= 36,
            !has_key(old(self).groups(), g.id@),
            final(self).groups() == old(self).groups().push(g),
            final(self).groups() == upserted(old(self).groups(), g),
            final(self).profiles() == old(self).profiles(),
    {
        let id = self.group_store.groups.fresh_key(new_uuid());
        let now = now_rfc3339();
        let max_order = max_group_order(&self.group_store.groups.rows);
        let g = ProfileGroup { id, name, color, sort_order: max_order + 1, created_at: now };
        self.group_store.groups.upsert(g.duplicate());
        g
    }

    /// Renames and recolours a group.
    pub fn update_group(&mut self, id: &str, name: String, color: String) -> (r: Result<ProfileGroup, String>)
        requires
            old(self).wf(),
        ensures
            final(self).wf(),
            final(self).profiles() == old(self).profiles(),
            match lookup(old(self).groups(), id@) {
                None => r matches Err(e) && e@ == "group not found"@ && final(self).groups()
                    == old(self).groups(),
                Some(g) => r == Ok::<ProfileGroup, String>(ProfileGroup { name: name, color: color, ..g })
                    && final(self).groups() == old(self).groups().update(
                    key_index(old(self).groups(), id@),
                    ProfileGroup { name: name, color: color, ..g },
                ),
            },
    {
        match self.group_store.groups.find(id) {
            None => Err("group not found".to_string()),
            Some(i) => {
                let g = &self.group_store.groups.rows[i];
                let ng = ProfileGroup {
                    id: g.id.clone(),
                    name,
                    color,
                    sort_order: g.sort_order,
                    created_at: g.created_at.clone(),
                };
                self.group_store.groups.set_at(i, ng.duplicate());
                Ok(ng)
            },
        }
    }

    /// Deletes a group and ungroups its profiles.
    pub fn delete_group(&mut self, id: &str)
        requires
            old(self).wf(),
        ensures
            final(self).wf(),
            final(self).groups() == removed(old(self).groups(), id@),
            views(final(self).profiles()) == Seq::new(
                old(self).profiles().len(),
                |k: int| ungroup_view(old(self).profiles()[k]@, id@),
            ),
    {
        self.group_store.groups.remove_key(id);
        let n = self.store.profiles.rows.len();
        let mut i: usize = 0;
        while i < n
            invariant
                n == old(self).profiles().len(),
                0 <= i <= n,
                self.wf(),
                self.groups() == removed(old(self).groups(), id@),
                self.profiles().len() == n,
                forall|k: int| 0 <= k < i ==> #[trigger] self.profiles()[k]@ == ungroup_view(old(self).profiles()[k]@, id@),
                forall|k: int| i <= k < n ==> #[trigger] self.profiles()[k] == old(self).profiles()[k],
            decreases n - i,
        {
            let hit = match &self.store.profiles.rows[i].group_id {
                Some(g) => str_eq(g.as_str(), id),
                None => false,
            };
            if hit {
                let mut p = self.store.profiles.rows[i].duplicate();
                p.group_id = None;
                self.store.profiles.set_at(i, p);
            }
            i = i + 1;
        }
        assert(views(self.profiles()) =~= Seq::new(
            old(self).profiles().len(),
            |k: int| ungroup_view(old(self).profiles()[k]@, id@),
        ));
    }

    /// Moves a profile into a group, or out of any group.
    pub fn set_profile_group(&mut self, profile_id: &str, group_id: Option<String>) -> (r: Result<Profile, String>)
        requires
            old(self).wf(),
        ensures
            final(self).wf(),
            final(self).groups() == old(self).groups(),
            match lookup(old(self).profiles(), profile_id@) {
                None => r matches Err(e) && e@ == "profile not found"@ && final(self).profiles()
                    == old(self).profiles(),
                Some(p) => r matches Ok(q) && q@ == (ProfileView { group_id: group_id, updated_at: q.updated_at, ..p@ })
                    && views(final(self).profiles()) == views(old(self).profiles()).update(
                    key_index(old(self).profiles(), profile_id@),
                    q@,
                ),
            },
    {
        match self.store.profiles.find(profile_id) {
            None => Err("profile not found".to_string()),
            Some(i) => {
                let mut p = self.store.profiles.rows[i].duplicate();
                p.group_id = group_id;
                p.updated_at = now_rfc3339();
                let ret = p.duplicate();
                self.store.profiles.set_at(i, p);
                proof { lemma_views_update(old(self).profiles(), i as int, p); }
                Ok(ret)
            },
        }
    }

    /// The id and name of every available profile, in storage order.
    pub fn available(&self) -> (r: Vec<(String, String)>)
        ensures
            r@ == available_pairs(self.profiles()),
    {
        let mut r: Vec<(String, String)> = Vec::new();
        let mut i: usize = 0;
        while i < self.store.profiles.rows.len()
            invariant
                0 <= i <= self.profiles().len(),
                r@ == available_pairs(self.profiles().take(i as int)),
            decreases self.store.profiles.rows.len() - i,
        {
            let p = &self.store.profiles.rows[i];
            proof {
                assert(self.profiles().take(i + 1).drop_last() =~= self.profiles().take(i as int));
                assert(self.profiles().take(i + 1).last() == *p);
            }
            let avail = str_eq(p.status.as_str(), "available");
            proof {
                reveal_strlit("available");
                assert("available"@ =~= available_status());
                assert(avail == (p.status@ == available_status()));
            }
            if avail {
                r.push((p.id.clone(), p.name.clone()));
            }
            i = i + 1;
        }
        assert(self.profiles().take(self.profiles().len() as int) =~= self.profiles());
        r
    }

    /// All profiles.
    pub fn list(&self) -> (r: Vec<Profile>)
        ensures
            views(r@) == views(self.profiles()),
    {
        self.store.profiles.copies()
    }

    /// `candidate` when no profile has that id; otherwise `candidate` lengthened with `-` until
    /// it is longer than every id, so that no profile has it either.
    fn fresh_id(&self, candidate: String) -> (r: String)
        requires
            self.wf(),
            candidate@.len() == 36,
        ensures
            !has_key(self.profiles(), r@),
            r@.len() >= 36,
            !has_key(self.profiles(), candidate@) ==> r == candidate,
    {
        if self.store.profiles.find(candidate.as_str()).is_none() {
            return candidate;
        }
        let mut longest: Vec<char> = Vec::new();
        let mut i: usize = 0;
        while i < self.store.profiles.rows.len()
            invariant
                0 <= i <= self.profiles().len(),
                forall|j: int| 0 <= j < i ==> #[trigger] self.profiles()[j].id@.len() <= longest@.len(),
            decreases self.store.profiles.rows.len() - i,
        {
            let id = chars_of(self.store.profiles.rows[i].id.as_str());
            if id.len() > longest.len() {
                longest = id;
            }
            i = i + 1;
        }
        let mut v = chars_of(candidate.as_str());
        v.push('-');
        push_chars(&mut v, &longest);
        proof {
            assert forall|j: int| 0 <= j < self.profiles().len() implies #[trigger] self.profiles()[j].key() != v@ by {
                assert(self.profiles()[j].id@.len() <= longest@.len());
            }
        }
        string_of(&v)
    }

    /// Creates an available profile with a fresh id, whose data lives in
    /// `profiles_dir` joined with that id.
    pub fn create(
        &mut self,
        profiles_dir: &str,
        name: String,
        color: String,
        description: String,
        tags: Vec<String>,
        credentials: Option<Credentials>,
        fingerprint: Option<FingerprintConfig>,
    ) -> (p: Profile)
        requires
            old(self).wf(),
        ensures
            final(self).wf(),
            p.name == name,
            p.color == color,
            p.description == description,
            p.tags@ == tags@,
            p.status@ == available_status(),
            p.proxy is None,
            p.credentials == credentials,
            opt_fp_view(p.fingerprint) == opt_fp_view(fingerprint),
            p.id@.len() >= 36,
            !has_key(old(self).profiles(), p.id@),
            views(final(self).profiles()) == views(old(self).profiles()).push(p@),
            p.local_dir@ == profiles_dir@ + seq![p.local_dir@[profiles_dir@.len() as int]] + p.id@,
            p.local_dir@[profiles_dir@.len() as int] == '/' || p.local_dir@[profiles_dir@.len() as int] == '\\',
            p.created_at == p.updated_at,
            p.last_opened_at is None,
            p.group_id is None,
            p.extensions@.len() == 0,
            has_key(final(self).profiles(), p.id@),
            lookup(final(self).profiles(), p.id@) matches Some(q) && q@ == p@,
            final(self).groups() == old(self).groups(),
    {
        let id = self.fresh_id(new_uuid());
        let now = now_rfc3339();
        let mut dir: Vec<char> = Vec::new();
        push_str(&mut dir, profiles_dir);
        dir.push(path_separator());
        push_str(&mut dir, id.as_str());
        let p = Profile {
            id,
            name,
            color,
            description,
            tags,
            status: available_string(),
            proxy: None,
            credentials,
            fingerprint,
            local_dir: string_of(&dir),
            created_at: now.clone(),
            updated_at: now,
            last_opened_at: None,
            group_id: None,
            extensions: Vec::new(),
        };
        let ret = p.duplicate();
        assert(!has_key(old(self).profiles(), p.id@));
        self.store.profiles.upsert(p);
        assert(self.profiles() == old(self).profiles().push(p));
        proof {
            lemma_views_push(old(self).profiles(), p);
            let rows = self.profiles();
            let i = if has_key(old(self).profiles(), p.id@) {
                key_index(old(self).profiles(), p.id@)
            } else {
                old(self).profiles().len() as int
            };
            assert(rows[i] == p);
            lemma_key_index(rows, i);
        }
        ret
    }

    /// Changes the given fields of a profile.
    pub fn update(
        &mut self,
        id: &str,
        name: Option<String>,
        color: Option<String>,
        description: Option<String>,
        tags: Option<Vec<String>>,
    ) -> (r: Result<Profile, String>)
        requires
            old(self).wf(),
        ensures
            final(self).wf(),
            final(self).groups() == old(self).groups(),
            match lookup(old(self).profiles(), id@) {
                None => r matches Err(e) && e@ == "not found"@ && final(self).profiles()
                    == old(self).profiles(),
                Some(p) => r matches Ok(q) && q@ == updated_view(p@, name, color, description, opt_tags_view(tags), q.updated_at)
                    && views(final(self).profiles()) == views(old(self).profiles()).update(
                    key_index(old(self).profiles(), id@),
                    q@,
                ),
            },
    {
        match self.store.profiles.find(id) {
            None => Err("not found".to_string()),
            Some(i) => {
                let mut p = self.store.profiles.rows[i].duplicate();
                if let Some(n) = name {
                    p.name = n;
                }
                if let Some(c) = color {
                    p.color = c;
                }
                if let Some(d) = description {
                    p.description = d;
                }
                if let Some(t) = tags {
                    p.tags = t;
                }
                p.updated_at = now_rfc3339();
                let ret = p.duplicate();
                self.store.profiles.set_at(i, p);
                proof { lemma_views_update(old(self).profiles(), i as int, p); }
                Ok(ret)
            },
        }
    }

    /// Deletes a profile.
    pub fn delete(&mut self, id: &str)
        requires
            old(self).wf(),
        ensures
            final(self).wf(),
            final(self).profiles() == removed(old(self).profiles(), id@),
            final(self).groups() == old(self).groups(),
    {
        self.store.profiles.remove_key(id);
    }

    /// Replaces a profile's fingerprint.
    pub fn set_fingerprint(&mut self, id: &str, fingerprint: Option<FingerprintConfig>) -> (r: Result<Profile, String>)
        requires
            old(self).wf(),
        ensures
            final(self).wf(),
            final(self).groups() == old(self).groups(),
            match lookup(old(self).profiles(), id@) {
                None => r matches Err(e) && e@ == "not found"@ && final(self).profiles()
                    == old(self).profiles(),
                Some(p) => r matches Ok(q) && q@ == (ProfileView { fingerprint: opt_fp_view(fingerprint), updated_at: q.updated_at, ..p@ })
                    && views(final(self).profiles()) == views(old(self).profiles()).update(
                    key_index(old(self).profiles(), id@),
                    q@,
                ),
            },
    {
        match self.store.profiles.find(id) {
            None => Err("not found".to_string()),
            Some(i) => {
                let mut p = self.store.profiles.rows[i].duplicate();
                p.fingerprint = fingerprint;
                p.updated_at = now_rfc3339();
                let ret = p.duplicate();
                self.store.profiles.set_at(i, p);
                proof { lemma_views_update(old(self).profiles(), i as int, p); }
                Ok(ret)
            },
        }
    }

    /// Replaces a profile's credentials.
    pub fn set_credentials(&mut self, id: &str, credentials: Option<Credentials>) -> (r: Result<Profile, String>)
        requires
            old(self).wf(),
        ensures
            final(self).wf(),
            final(self).groups() == old(self).groups(),
            match lookup(old(self).profiles(), id@) {
                None => r matches Err(e) && e@ == "not found"@ && final(self).profiles()
                    == old(self).profiles(),
                Some(p) => r matches Ok(q) && q@ == (ProfileView { credentials: credentials, updated_at: q.updated_at, ..p@ })
                    && views(final(self).profiles()) == views(old(self).profiles()).update(
                    key_index(old(self).profiles(), id@),
                    q@,
                ),
            },
    {
        match self.store.profiles.find(id) {
            None => Err("not found".to_string()),
            Some(i) => {
                let mut p = self.store.profiles.rows[i].duplicate();
                p.credentials = credentials;
                p.updated_at = now_rfc3339();
                let ret = p.duplicate();
                self.store.profiles.set_at(i, p);
                proof { lemma_views_update(old(self).profiles(), i as int, p); }
                Ok(ret)
            },
        }
    }

    /// Replaces a profile's proxy.
    pub fn set_proxy(&mut self, id: &str, proxy: Option<ProxyConfig>) -> (r: Result<Profile, String>)
        requires
            old(self).wf(),
        ensures
            final(self).wf(),
            final(self).groups() == old(self).groups(),
            match lookup(old(self).profiles(), id@) {
                None => r matches Err(e) && e@ == "not found"@ && final(self).profiles()
                    == old(self).profiles(),
                Some(p) => r matches Ok(q) && q@ == (ProfileView { proxy: opt_proxy_view(proxy), updated_at: q.updated_at, ..p@ })
                    && views(final(self).profiles()) == views(old(self).profiles()).update(
                    key_index(old(self).profiles(), id@),
                    q@,
                ),
            },
    {
        match self.store.profiles.find(id) {
            None => Err("not found".to_string()),
            Some(i) => {
                let mut p = self.store.profiles.rows[i].duplicate();
                p.proxy = proxy;
                p.updated_at = now_rfc3339();
                let ret = p.duplicate();
                self.store.profiles.set_at(i, p);
                proof { lemma_views_update(old(self).profiles(), i as int, p); }
                Ok(ret)
            },
        }
    }

    /// Appends an extension to a profile.
    pub fn add_extension(&mut self, profile_id: &str, ext: Extension) -> (r: Result<Profile, String>)
        requires
            old(self).wf(),
        ensures
            final(self).wf(),
            final(self).groups() == old(self).groups(),
            match lookup(old(self).profiles(), profile_id@) {
                None => r matches Err(e) && e@ == "not found"@ && final(self).profiles()
                    == old(self).profiles(),
                Some(p) => r matches Ok(q) && q@ == (ProfileView { extensions: p@.extensions.push(ext), updated_at: q.updated_at, ..p@ })
                    && views(final(self).profiles()) == views(old(self).profiles()).update(
                    key_index(old(self).profiles(), profile_id@),
                    q@,
                ),
            },
    {
        match self.store.profiles.find(profile_id) {
            None => Err("not found".to_string()),
            Some(i) => {
                let mut p = self.store.profiles.rows[i].duplicate();
                p.extensions.push(ext);
                p.updated_at = now_rfc3339();
                let ret = p.duplicate();
                self.store.profiles.set_at(i, p);
                proof { lemma_views_update(old(self).profiles(), i as int, p); }
                Ok(ret)
            },
        }
    }

    /// Removes every extension with the given id from a profile.
    pub fn remove_extension(&mut self, profile_id: &str, ext_id: &str) -> (r: Result<Profile, String>)
        requires
            old(self).wf(),
        ensures
            final(self).wf(),
            final(self).groups() == old(self).groups(),
            match lookup(old(self).profiles(), profile_id@) {
                None => r matches Err(e) && e@ == "not found"@ && final(self).profiles()
                    == old(self).profiles(),
                Some(p) => r matches Ok(q) && q@ == (ProfileView { extensions: without_ext(p@.extensions, ext_id@), updated_at: q.updated_at, ..p@ })
                    && views(final(self).profiles()) == views(old(self).profiles()).update(
                    key_index(old(self).profiles(), profile_id@),
                    q@,
                ),
            },
    {
        match self.store.profiles.find(profile_id) {
            None => Err("not found".to_string()),
            Some(i) => {
                let mut p = self.store.profiles.rows[i].duplicate();
                let kept = retain_other_exts(&p.extensions, ext_id);
                p.extensions = kept;
                p.updated_at = now_rfc3339();
                let ret = p.duplicate();
                self.store.profiles.set_at(i, p);
                proof { lemma_views_update(old(self).profiles(), i as int, p); }
                Ok(ret)
            },
        }
    }

    /// Switches the first extension with the given id of a profile on or off.
    pub fn toggle_extension(&mut self, profile_id: &str, ext_id: &str, enabled: bool) -> (r: Result<Profile, String>)
        requires
            old(self).wf(),
        ensures
            final(self).wf(),
            final(self).groups() == old(self).groups(),
            match lookup(old(self).profiles(), profile_id@) {
                None => r matches Err(e) && e@ == "not found"@ && final(self).profiles()
                    == old(self).profiles(),
                Some(p) => r matches Ok(q) && q@ == (ProfileView { extensions: toggle_first(p@.extensions, ext_id@, enabled), updated_at: q.updated_at, ..p@ })
                    && views(final(self).profiles()) == views(old(self).profiles()).update(
                    key_index(old(self).profiles(), profile_id@),
                    q@,
                ),
            },
    {
        match self.store.profiles.find(profile_id) {
            None => Err("not found".to_string()),
            Some(i) => {
                let mut p = self.store.profiles.rows[i].duplicate();
                let exts = toggle_first_ext(&p.extensions, ext_id, enabled);
                p.extensions = exts;
                p.updated_at = now_rfc3339();
                let ret = p.duplicate();
                self.store.profiles.set_at(i, p);
                proof { lemma_views_update(old(self).profiles(), i as int, p); }
                Ok(ret)
            },
        }
    }
}

/// The largest sort order among `gs`.
fn max_group_order(gs: &Vec<ProfileGroup>) -> (m: u32)
    ensures
        m == max_sort_order(gs@),
{
    let mut m: u32 = 0;
    let mut i: usize = 0;
    while i < gs.len()
        invariant
            0 <= i <= gs@.len(),
            m == max_sort_order(gs@.take(i as int)),
        decreases gs.len() - i,
    {
        if gs[i].sort_order > m {
            m = gs[i].sort_order;
        }
        proof {
            let t = gs@.take(i + 1);
            assert(t.drop_last() == gs@.take(i as int));
        }
        i = i + 1;
    }
    assert(gs@.take(gs@.len() as int) == gs@);
    m
}

fn retain_other_exts(exts: &Vec<Extension>, ext_id: &str) -> (r: Vec<Extension>)
    ensures
        r@ == without_ext(exts@, ext_id@),
{
    let mut r: Vec<Extension> = Vec::new();
    let mut i: usize = 0;
    while i < exts.len()
        invariant
            0 <= i <= exts@.len(),
            r@ == without_ext(exts@.take(i as int), ext_id@),
        decreases exts.len() - i,
    {
        let keep = !str_eq(exts[i].id.as_str(), ext_id);
        if keep {
            r.push(exts[i].duplicate());
        }
        proof {
            let t = exts@.take(i + 1);
            assert(t.drop_last() == exts@.take(i as int));
            reveal_with_fuel(Seq::filter, 1);
        }
        i = i + 1;
    }
    assert(exts@.take(exts@.len() as int) == exts@);
    r
}

fn toggle_first_ext(exts: &Vec<Extension>, ext_id: &str, enabled: bool) -> (r: Vec<Extension>)
    ensures
        r@ == toggle_first(exts@, ext_id@, enabled),
{
    let mut r = copy_exts(exts);
    let mut i: usize = 0;
    while i < exts.len()
        invariant
            0 <= i <= exts@.len(),
            r@ == exts@,
            forall|k: int| 0 <= k < i ==> #[trigger] exts@[k].id@ != ext_id@,
        decreases exts.len() - i,
    {
        if str_eq(exts[i].id.as_str(), ext_id) {
            let mut e = exts[i].duplicate();
            e.enabled = enabled;
            r.set(i, e);
            proof {
                lemma_first_ext(exts@, ext_id@, i as int);
                lemma_first_ext_hit(exts@, ext_id@, i as int);
            }
            return r;
        }
        i = i + 1;
    }
    proof {
        lemma_first_ext(exts@, ext_id@, exts@.len() as int);
        assert(exts@.take(exts@.len() as int) == exts@);
    }
    r
}

/// `std::path::MAIN_SEPARATOR`: `/` on Unix, `\\` on Windows, as std documents it.
#[verifier::external_body]
pub(crate) fn path_separator() -> (c: char)
    ensures
        c == '/' || c == '\\',
{
    std::path::MAIN_SEPARATOR
}

} // verus!

verus! {

/// Items joined by `sep`.
pub open spec fn join_sep(items: Seq<String>, sep: char) -> Seq<char>
    decreases items.len(),
{
    if items.len() == 0 {
        Seq::empty()
    } else if items.len() == 1 {
        items[0]@
    } else {
        join_sep(items.drop_last(), sep) + seq![sep] + items.last()@
    }
}

/// `slice::join` of strings with a one-character separator.
pub fn join_strings(items: &Vec<String>, sep: char) -> (r: String)
    ensures
        r@ == join_sep(items@, sep),
{
    let mut out: Vec<char> = Vec::new();
    let mut i: usize = 0;
    while i < items.len()
        invariant
            0 <= i <= items@.len(),
            out@ == join_sep(items@.take(i as int), sep),
        decreases items.len() - i,
    {
        if i > 0 {
            out.push(sep);
        }
        push_str(&mut out, items[i].as_str());
        proof {
            let t = items@.take(i + 1);
            assert(t.drop_last() == items@.take(i as int));
            assert(t.last() == items@[i as int]);
            if i == 0 {
                assert(items@.take(0).len() == 0);
            }
        }
        i = i + 1;
    }
    assert(items@.take(items@.len() as int) == items@);
    string_of(&out)
}

/// The browser arguments that load a profile's enabled extensions.
pub open spec fn extension_args(exts: Seq<Extension>) -> Seq<Seq<char>>
    decreases exts.len(),
{
    if exts.len() == 0 {
        Seq::empty()
    } else {
        let rest = extension_args(exts.drop_last());
        let e = exts.last();
        if e.enabled && e.install_url@.len() > 0 {
            rest.push("--load-extension="@ + e.install_url@)
        } else {
            rest
        }
    }
}

/// The fixed browser arguments, after the profile directory.
pub open spec fn base_args(profile_dir: Seq<char>) -> Seq<Seq<char>> {
    seq![
        "--user-data-dir="@ + profile_dir,
        "--no-first-run"@,
        "--no-default-browser-check"@,
        "--no-pings"@,
        "--no-crash-upload"@,
        "--no-report-upload"@,
        "--mute-audio"@,
        "--disable-blink-features=AutomationControlled"@,
        "--disable-features=ChromeWhatsNewUI,ChromeTipsInMainMenu,ChromeInProductHelp"@,
        "--disable-sync"@,
        "--disable-background-networking"@,
        "--disable-component-update"@,
        "--disable-default-apps"@,
        "--disable-domain-reliability"@
    ]
}

/// The proxy arguments of a profile.
pub open spec fn proxy_args(proxy: Option<ProxyConfigView>) -> Seq<Seq<char>> {
    match proxy {
        None => Seq::empty(),
        Some(x) => match x.pac_url {
            Some(pac) => seq!["--proxy-pac-url="@ + pac@],
            None => {
                let server = "--proxy-server="@ + x.proxy_type@ + "://"@ + x.host@ + ":"@ + decimal(
                    x.port as nat,
                );
                if x.bypass_list.len() > 0 {
                    seq![server, "--proxy-bypass-list="@ + join_sep(x.bypass_list, ';')]
                } else {
                    seq![server]
                }
            },
        },
    }
}

/// The browser arguments that open profile `p` with its data in `profile_dir`, CDP on `port`
/// and, when its fingerprint is enabled, the stealth extension at `stealth`.
pub open spec fn launch_args(
    p: ProfileView,
    profile_dir: Seq<char>,
    stealth: Option<Seq<char>>,
    port: u16,
) -> Seq<Seq<char>> {
    let stealth_args = if (p.fingerprint matches Some(f) && f.enabled) && stealth is Some {
        seq!["--load-extension="@ + stealth->0, "--disable-extensions-except="@]
    } else {
        Seq::empty()
    };
    let url_args = if p.credentials matches Some(c) && c.url@.len() > 0 {
        seq![p.credentials->0.url@]
    } else {
        Seq::empty()
    };
    base_args(profile_dir) + stealth_args + seq!["--remote-debugging-port="@ + decimal(port as nat)]
        + url_args + proxy_args(p.proxy) + extension_args(p.extensions)
}

/// The profiles `after` are `before` with profile `id` marked in use and opened (its status
/// `in_use`, an open time, a new update time, nothing else changed); the same profiles when there
/// is no profile `id`.
pub open spec fn marked_in_use(before: Seq<Profile>, after: Seq<Profile>, id: Seq<char>) -> bool {
    match lookup(before, id) {
        None => after == before,
        Some(p) => {
            let q = after[key_index(before, id)];
            &&& q@ == ProfileView { status: q.status, updated_at: q.updated_at, last_opened_at: q.last_opened_at, ..p@ }
            &&& q.status@ == in_use_status()
            &&& q.last_opened_at is Some
            &&& views(after) == views(before).update(key_index(before, id), q@)
        },
    }
}

/// How to launch a profile: the profile, its browser data directory and the browser arguments.
#[derive(Debug)]
pub struct LaunchPlan {
    pub profile: Profile,
    pub profile_dir: String,
    pub args: Vec<String>,
}

/// The id and name of each available profile of `ps`, in order.
pub open spec fn available_pairs(ps: Seq<Profile>) -> Seq<(String, String)>
    decreases ps.len(),
{
    if ps.len() == 0 {
        Seq::empty()
    } else {
        let r = available_pairs(ps.drop_last());
        if ps.last().status@ == available_status() {
            r.push((ps.last().id, ps.last().name))
        } else {
            r
        }
    }
}

/// The view of an optional string.
pub open spec fn opt_view(s: Option<String>) -> Option<Seq<char>> {
    match s {
        Some(x) => Some(x@),
        None => None,
    }
}

fn concat2(a: &str, b: &str) -> (r: String)
    ensures
        r@ == a@ + b@,
{
    let mut v: Vec<char> = Vec::new();
    push_str(&mut v, a);
    push_str(&mut v, b);
    string_of(&v)
}

fn push_arg(args: &mut Vec<String>, a: String)
    ensures
        strings(final(args)@) == strings(old(args)@).push(a@),
{
    args.push(a);
    assert(strings(args@) =~= strings(old(args)@).push(a@));
}

/// The browser arguments that open `p`: its profile directory, the fixed switches, the stealth
/// extension when its fingerprint is enabled and `stealth_ext` names one, the CDP port, its login
/// URL, its proxy and its enabled extensions.
pub fn launch_args_for(p: &Profile, profile_dir: &str, stealth_ext: Option<&str>, cdp_port: u16) -> (r: Vec<String>)
    ensures
        strings(r@) == launch_args(p@, profile_dir@, match stealth_ext {
            Some(s) => Some(s@),
            None => None::<Seq<char>>,
        }, cdp_port),
{
    let mut args: Vec<String> = Vec::new();
    push_arg(&mut args, concat2("--user-data-dir=", profile_dir));
    push_arg(&mut args, "--no-first-run".to_owned());
    push_arg(&mut args, "--no-default-browser-check".to_owned());
    push_arg(&mut args, "--no-pings".to_owned());
    push_arg(&mut args, "--no-crash-upload".to_owned());
    push_arg(&mut args, "--no-report-upload".to_owned());
    push_arg(&mut args, "--mute-audio".to_owned());
    push_arg(&mut args, "--disable-blink-features=AutomationControlled".to_owned());
    push_arg(&mut args, "--disable-features=ChromeWhatsNewUI,ChromeTipsInMainMenu,ChromeInProductHelp".to_owned());
    push_arg(&mut args, "--disable-sync".to_owned());
    push_arg(&mut args, "--disable-background-networking".to_owned());
    push_arg(&mut args, "--disable-component-update".to_owned());
    push_arg(&mut args, "--disable-default-apps".to_owned());
    push_arg(&mut args, "--disable-domain-reliability".to_owned());
    assert(strings(args@) =~= base_args(profile_dir@));
    let ghost a1 = strings(args@);
    let fp_enabled = match &p.fingerprint {
        Some(f) => f.enabled,
        None => false,
    };
    if fp_enabled {
        if let Some(ext) = stealth_ext {
            push_arg(&mut args, concat2("--load-extension=", ext));
            push_arg(&mut args, "--disable-extensions-except=".to_owned());
        }
    }
    let port_digits = decimal_string(cdp_port as u64);
    push_arg(&mut args, concat2("--remote-debugging-port=", port_digits.as_str()));
    if let Some(c) = &p.credentials {
        if !c.url.as_str().is_empty() {
            push_arg(&mut args, c.url.clone());
        }
    }
    let ghost a4 = strings(args@);
    if let Some(x) = &p.proxy {
        if let Some(pac) = &x.pac_url {
            push_arg(&mut args, concat2("--proxy-pac-url=", pac.as_str()));
        } else {
            let mut v: Vec<char> = Vec::new();
            push_str(&mut v, "--proxy-server=");
            push_str(&mut v, x.proxy_type.as_str());
            push_str(&mut v, "://");
            push_str(&mut v, x.host.as_str());
            push_str(&mut v, ":");
            let pd = decimal_chars(x.port as u64);
            push_chars(&mut v, &pd);
            push_arg(&mut args, string_of(&v));
            if x.bypass_list.len() > 0 {
                let joined = join_strings(&x.bypass_list, ';');
                push_arg(&mut args, concat2("--proxy-bypass-list=", joined.as_str()));
            }
        }
    }
    assert(strings(args@) =~= a4 + proxy_args(p@.proxy));
    let ghost a5 = strings(args@);
    let mut i: usize = 0;
    while i < p.extensions.len()
        invariant
            0 <= i <= p.extensions@.len(),
            strings(args@) == a5 + extension_args(p.extensions@.take(i as int)),
        decreases p.extensions.len() - i,
    {
        let e = &p.extensions[i];
        if e.enabled && !e.install_url.as_str().is_empty() {
            push_arg(&mut args, concat2("--load-extension=", e.install_url.as_str()));
        }
        proof {
            let t = p.extensions@.take(i + 1);
            assert(t.drop_last() == p.extensions@.take(i as int));
            assert(t.last() == p.extensions@[i as int]);
        }
        i = i + 1;
    }
    assert(p.extensions@.take(p.extensions@.len() as int) == p.extensions@);
    args
}

proof fn lemma_disabled_extension_adds_nothing(exts: Seq<Extension>, i: int)
    requires
        0 <= i < exts.len(),
        !exts[i].enabled,
    ensures
        extension_args(exts.remove(i)) == extension_args(exts),
    decreases exts.len(),
{
    if i == exts.len() - 1 {
        assert(exts.remove(i) =~= exts.drop_last());
    } else {
        lemma_disabled_extension_adds_nothing(exts.drop_last(), i);
        assert(exts.remove(i).drop_last() =~= exts.drop_last().remove(i));
        assert(exts.remove(i).last() == exts.last());
    }
}

proof fn lemma_enabled_extension_loaded(exts: Seq<Extension>, i: int)
    requires
        0 <= i < exts.len(),
        exts[i].enabled,
        exts[i].install_url@.len() > 0,
    ensures
        extension_args(exts).contains("--load-extension="@ + exts[i].install_url@),
    decreases exts.len(),
{
    let target = "--load-extension="@ + exts[i].install_url@;
    let r = extension_args(exts);
    if i == exts.len() - 1 {
        assert(r[r.len() - 1] == target);
    } else {
        lemma_enabled_extension_loaded(exts.drop_last(), i);
        let rest = extension_args(exts.drop_last());
        let w = choose|w: int| 0 <= w < rest.len() && rest[w] == target;
        assert(r[w] == target);
    }
}

/// Only enabled extensions are loaded into the browser: taking a disabled extension off a
/// profile leaves its launch arguments exactly as they were, whatever the extension's install
/// location; and every enabled extension that has an install location is loaded with
/// `--load-extension=` and that location.
pub proof fn law_launch_loads_only_enabled_extensions(
    p: ProfileView,
    profile_dir: Seq<char>,
    stealth: Option<Seq<char>>,
    port: u16,
    i: int,
)
    requires
        0 <= i < p.extensions.len(),
    ensures
        !p.extensions[i].enabled ==> launch_args(
            ProfileView { extensions: p.extensions.remove(i), ..p },
            profile_dir,
            stealth,
            port,
        ) == launch_args(p, profile_dir, stealth, port),
        p.extensions[i].enabled && p.extensions[i].install_url@.len() > 0 ==> launch_args(
            p,
            profile_dir,
            stealth,
            port,
        ).contains("--load-extension="@ + p.extensions[i].install_url@),
{
    let q = ProfileView { extensions: p.extensions.remove(i), ..p };
    let a = launch_args(p, profile_dir, stealth, port);
    let ea = extension_args(p.extensions);
    let pre = a.take(a.len() - ea.len());
    assert(a =~= pre + ea);
    if !p.extensions[i].enabled {
        lemma_disabled_extension_adds_nothing(p.extensions, i);
        assert(launch_args(q, profile_dir, stealth, port) =~= pre + extension_args(q.extensions));
    }
    if p.extensions[i].enabled && p.extensions[i].install_url@.len() > 0 {
        let target = "--load-extension="@ + p.extensions[i].install_url@;
        lemma_enabled_extension_loaded(p.extensions, i);
        let w = choose|w: int| 0 <= w < ea.len() && ea[w] == target;
        assert(a[pre.len() + w] == target);
    }
}

impl ProfileManager {
    /// Opens profile `id`, given whether its browser is still running: refused when there is no
    /// such profile or it is in use with its browser running; otherwise the profile is marked in
    /// use and opened now, the registry holds it as running with CDP on `cdp_port` (its process
    /// not yet known), and the plan to launch it comes back: the profile as it was, its browser
    /// data directory (`chromium` inside its own directory) and the browser arguments that open
    /// it with CDP on `cdp_port` and, when its fingerprint is enabled, the stealth extension at
    /// `stealth_ext`. A refusal changes nothing.
    pub fn open(
        &mut self,
        registry: &mut ProfileRegistry,
        id: &str,
        still_running: bool,
        stealth_ext: Option<&str>,
        cdp_port: u16,
    ) -> (r: Result<LaunchPlan, String>)
        requires
            old(self).wf(),
            old(registry).wf(),
        ensures
            final(self).wf(),
            final(registry).wf(),
            final(self).groups() == old(self).groups(),
            match lookup(old(self).profiles(), id@) {
                None => (r matches Err(e) && e@ == "Profile not found"@) && *final(self) == *old(self)
                    && *final(registry) == *old(registry),
                Some(p) => if p.status@ == in_use_status() && still_running {
                    (r matches Err(e) && e@ == "Profile already open"@) && *final(self) == *old(self)
                        && *final(registry) == *old(registry)
                } else {
                    r matches Ok(plan) && {
                        &&& plan.profile@ == p@
                        &&& (plan.profile_dir@ == p.local_dir@ + seq!['/'] + "chromium"@
                            || plan.profile_dir@ == p.local_dir@ + seq!['\\'] + "chromium"@)
                        &&& strings(plan.args@) == launch_args(p@, plan.profile_dir@, match stealth_ext {
                            Some(x) => Some(x@),
                            None => None::<Seq<char>>,
                        }, cdp_port)
                        &&& marked_in_use(old(self).profiles(), final(self).profiles(), id@)
                        &&& final(registry).active(id@) matches Some(a) && a.port == cdp_port && a.ws_url is None
                            && a.pid is None
                        &&& forall|k: Seq<char>| k != id@ ==> #[trigger] final(registry).active(k) == old(registry).active(k)
                    }
                },
            },
    {
        let profile = match self.store.profiles.get(id) {
            None => {
                return Err("Profile not found".to_string());
            },
            Some(p) => {
                if is_in_use(&p.status) && still_running {
                    return Err("Profile already open".to_string());
                }
                p.duplicate()
            },
        };
        let mut dir = chars_of(profile.local_dir.as_str());
        let sep = path_separator();
        dir.push(sep);
        push_str(&mut dir, "chromium");
        let profile_dir = string_of(&dir);
        let args = launch_args_for(&profile, profile_dir.as_str(), stealth_ext, cdp_port);
        self.mark_opened(id);
        registry.insert(id, cdp_port, None);
        Ok(LaunchPlan { profile, profile_dir, args })
    }

    /// Undoes an open whose browser could not be launched: the profile is put back as
    /// `previous`, the one `open` planned with, and the registry forgets it.
    pub fn abort_open(&mut self, registry: &mut ProfileRegistry, previous: Profile)
        requires
            old(self).wf(),
            old(registry).wf(),
        ensures
            final(self).wf(),
            final(registry).wf(),
            final(self).groups() == old(self).groups(),
            final(self).profiles() == upserted(old(self).profiles(), previous),
            final(registry).entries() == removed(old(registry).entries(), previous.id@),
    {
        let id = previous.id.clone();
        self.put_profile(previous);
        registry.remove(id.as_str());
    }

    /// Marks profile `id` as in use and opened now; an unknown id is ignored.
    pub fn mark_opened(&mut self, id: &str)
        requires
            old(self).wf(),
        ensures
            final(self).wf(),
            final(self).groups() == old(self).groups(),
            marked_in_use(old(self).profiles(), final(self).profiles(), id@),
    {
        match self.store.profiles.find(id) {
            None => {},
            Some(i) => {
                let mut p = self.store.profiles.rows[i].duplicate();
                p.status = in_use_string();
                p.updated_at = now_rfc3339();
                p.last_opened_at = Some(now_rfc3339());
                self.store.profiles.set_at(i, p);
                proof { lemma_views_update(old(self).profiles(), i as int, p); }
            },
        }
    }

    /// Marks profile `id` as available again; an unknown id is ignored.
    pub fn mark_closed(&mut self, id: &str)
        requires
            old(self).wf(),
        ensures
            final(self).wf(),
            final(self).groups() == old(self).groups(),
            match lookup(old(self).profiles(), id@) {
                None => final(self).profiles() == old(self).profiles(),
                Some(p) => {
                    let q = final(self).profiles()[key_index(old(self).profiles(), id@)];
                    &&& q@ == ProfileView { status: q.status, updated_at: q.updated_at, ..p@ }
                    &&& q.status@ == available_status()
                    &&& views(final(self).profiles()) == views(old(self).profiles()).update(
                        key_index(old(self).profiles(), id@),
                        q@,
                    )
                },
            },
    {
        match self.store.profiles.find(id) {
            None => {},
            Some(i) => {
                let mut p = self.store.profiles.rows[i].duplicate();
                p.status = available_string();
                p.updated_at = now_rfc3339();
                self.store.profiles.set_at(i, p);
                proof { lemma_views_update(old(self).profiles(), i as int, p); }
            },
        }
    }

    /// Closes profile `id`: unregisters it and marks it available. Returns the process id of its
    /// browser when it was registered with one, for the caller to terminate.
    pub fn close(&mut self, id: &str, registry: &mut ProfileRegistry) -> (pid: Option<u32>)
        requires
            old(self).wf(),
            old(registry).wf(),
        ensures
            final(self).wf(),
            final(registry).wf(),
            pid == match old(registry).active(id@) {
                Some(a) => a.pid,
                None => None::<u32>,
            },
            final(registry).entries() == removed(old(registry).entries(), id@),
            final(self).groups() == old(self).groups(),
            match lookup(old(self).profiles(), id@) {
                None => final(self).profiles() == old(self).profiles(),
                Some(p) => {
                    let q = final(self).profiles()[key_index(old(self).profiles(), id@)];
                    &&& q@ == ProfileView { status: q.status, updated_at: q.updated_at, ..p@ }
                    &&& q.status@ == available_status()
                    &&& views(final(self).profiles()) == views(old(self).profiles()).update(
                        key_index(old(self).profiles(), id@),
                        q@,
                    )
                },
            },
    {
        let pid = match registry.get(id) {
            Some(a) => a.pid,
            None => None,
        };
        registry.remove(id);
        self.mark_closed(id);
        pid
    }

    /// After a restart: marks available every profile left in use whose id is not among
    /// `running` (the profiles whose browsers still run). Returns whether any profile changed.
    pub fn recover(&mut self, running: &Vec<String>) -> (dirty: bool)
        requires
            old(self).wf(),
        ensures
            final(self).wf(),
            final(self).groups() == old(self).groups(),
            final(self).profiles().len() == old(self).profiles().len(),
            forall|k: int| 0 <= k < old(self).profiles().len() ==> {
                let p = #[trigger] old(self).profiles()[k];
                let q = final(self).profiles()[k];
                if p.status@ == in_use_status() && !strings(running@).contains(p.id@) {
                    &&& q@ == ProfileView { status: q.status, updated_at: q.updated_at, ..p@ }
                    &&& q.status@ == available_status()
                } else {
                    q == p
                }
            },
            dirty == exists|k: int|
                0 <= k < old(self).profiles().len() && #[trigger] old(self).profiles()[k].status@
                    == in_use_status() && !strings(running@).contains(old(self).profiles()[k].id@),
    {
        let n = self.store.profiles.rows.len();
        let mut dirty = false;
        let mut i: usize = 0;
        while i < n
            invariant
                n == old(self).profiles().len(),
                0 <= i <= n,
                self.wf(),
                self.groups() == old(self).groups(),
                self.profiles().len() == n,
                forall|k: int| 0 <= k < i ==> {
                    let p = #[trigger] old(self).profiles()[k];
                    let q = self.profiles()[k];
                    if p.status@ == in_use_status() && !strings(running@).contains(p.id@) {
                        &&& q@ == ProfileView { status: q.status, updated_at: q.updated_at, ..p@ }
                        &&& q.status@ == available_status()
                    } else {
                        q == p
                    }
                },
                forall|k: int| i <= k < n ==> #[trigger] self.profiles()[k] == old(self).profiles()[k],
                dirty == exists|k: int|
                    0 <= k < i && #[trigger] old(self).profiles()[k].status@ == in_use_status()
                        && !strings(running@).contains(old(self).profiles()[k].id@),
            decreases n - i,
        {
            let stale = is_in_use(&self.store.profiles.rows[i].status)
                && !holds_string(running, &self.store.profiles.rows[i].id);
            if stale {
                let mut p = self.store.profiles.rows[i].duplicate();
                p.status = available_string();
                p.updated_at = now_rfc3339();
                self.store.profiles.set_at(i, p);
                dirty = true;
            }
            i = i + 1;
        }
        dirty
    }

    /// The CDP port to export cookies from: the profile must exist, be open and be registered.
    pub fn export_cookies(&self, id: &str, registry: &ProfileRegistry) -> (r: Result<u16, String>)
        requires
            self.wf(),
            registry.wf(),
        ensures
            match lookup(self.profiles(), id@) {
                None => r matches Err(e) && e@ == "Profile not found"@,
                Some(p) => if p.status@ != in_use_status() {
                    r matches Err(e) && e@ == "Profile must be open to export cookies"@
                } else {
                    match registry.active(id@) {
                        None => r matches Err(e) && e@ == "CDP port not found"@,
                        Some(a) => r == Ok::<u16, String>(a.port),
                    }
                },
            },
    {
        match self.store.profiles.get(id) {
            None => Err("Profile not found".to_string()),
            Some(p) => {
                if !is_in_use(&p.status) {
                    return Err("Profile must be open to export cookies".to_string());
                }
                match registry.get_port(id) {
                    Some(port) => Ok(port),
                    None => Err("CDP port not found".to_string()),
                }
            },
        }
    }

    /// The CDP port to import cookies into: the profile must exist, be open and be registered.
    pub fn import_cookies(&self, id: &str, registry: &ProfileRegistry) -> (r: Result<u16, String>)
        requires
            self.wf(),
            registry.wf(),
        ensures
            match lookup(self.profiles(), id@) {
                None => r matches Err(e) && e@ == "Profile not found"@,
                Some(p) => if p.status@ != in_use_status() {
                    r matches Err(e) && e@ == "Profile must be open to import cookies"@
                } else {
                    match registry.active(id@) {
                        None => r matches Err(e) && e@ == "CDP port not found"@,
                        Some(a) => r == Ok::<u16, String>(a.port),
                    }
                },
            },
    {
        match self.store.profiles.get(id) {
            None => Err("Profile not found".to_string()),
            Some(p) => {
                if !is_in_use(&p.status) {
                    return Err("Profile must be open to import cookies".to_string());
                }
                match registry.get_port(id) {
                    Some(port) => Ok(port),
                    None => Err("CDP port not found".to_string()),
                }
            },
        }
    }
}

/// Whether `items` holds a string equal to `s`.
pub fn holds_string(items: &Vec<String>, s: &String) -> (r: bool)
    ensures
        r == strings(items@).contains(s@),
{
    let mut i: usize = 0;
    while i < items.len()
        invariant
            0 <= i <= items@.len(),
            forall|k: int| 0 <= k < i ==> items@[k]@ != s@,
        decreases items.len() - i,
    {
        if items[i] == *s {
            assert(strings(items@)[i as int] == s@);
            return true;
        }
        i = i + 1;
    }
    assert forall|k: int| 0 <= k < strings(items@).len() implies strings(items@)[k] != s@ by {
        assert(strings(items@)[k] == items@[k]@);
    }
    false
}

} // verus!

verus! {

/// The operating system a browser is looked for on.
#[derive(PartialEq, Eq, Structural, Clone, Copy, Debug)]
pub enum HostOs {
    Windows,
    MacOs,
    Other,
}

/// Where Chrome or Chromium is usually installed, most likely first.
pub open spec fn chrome_candidates_of(os: HostOs) -> Seq<Seq<char>> {
    match os {
        HostOs::Windows => seq![
            "C:\\Program Files\\Google\\Chrome\\Application\\chrome.exe"@,
            "C:\\Program Files (x86)\\Google\\Chrome\\Application\\chrome.exe"@,
            "C:\\Program Files\\Chromium\\Application\\chrome.exe"@,
        ],
        HostOs::MacOs => seq![
            "/Applications/Google Chrome.app/Contents/MacOS/Google Chrome"@,
            "/Applications/Chromium.app/Contents/MacOS/Chromium"@,
            "/usr/local/bin/google-chrome"@,
        ],
        HostOs::Other => seq![
            "/usr/bin/google-chrome"@,
            "/usr/bin/google-chrome-stable"@,
            "/usr/bin/chromium"@,
            "/usr/bin/chromium-browser"@,
            "/snap/bin/chromium"@,
        ],
    }
}

/// The usual install places of Chrome on `os`, most likely first.
pub fn chrome_candidates(os: HostOs) -> (v: Vec<String>)
    ensures
        crate::text::strings(v@) == chrome_candidates_of(os),
{
    let mut v: Vec<String> = Vec::new();
    match os {
        HostOs::Windows => {
            v.push("C:\\Program Files\\Google\\Chrome\\Application\\chrome.exe".to_string());
            v.push("C:\\Program Files (x86)\\Google\\Chrome\\Application\\chrome.exe".to_string());
            v.push("C:\\Program Files\\Chromium\\Application\\chrome.exe".to_string());
        },
        HostOs::MacOs => {
            v.push("/Applications/Google Chrome.app/Contents/MacOS/Google Chrome".to_string());
            v.push("/Applications/Chromium.app/Contents/MacOS/Chromium".to_string());
            v.push("/usr/local/bin/google-chrome".to_string());
        },
        HostOs::Other => {
            v.push("/usr/bin/google-chrome".to_string());
            v.push("/usr/bin/google-chrome-stable".to_string());
            v.push("/usr/bin/chromium".to_string());
            v.push("/usr/bin/chromium-browser".to_string());
            v.push("/snap/bin/chromium".to_string());
        },
    }
    assert(crate::text::strings(v@) =~= chrome_candidates_of(os));
    v
}

/// Chrome's place in a per-user install under the local application-data folder.
pub fn user_chrome_path(local_app_data: &str) -> (p: String)
    ensures
        p@ == local_app_data@ + "\\Google\\Chrome\\Application\\chrome.exe"@,
{
    let mut v = crate::text::chars_of(local_app_data);
    crate::text::push_str(&mut v, "\\Google\\Chrome\\Application\\chrome.exe");
    crate::text::string_of(&v)
}

/// The position of the first place that exists, or -1.
pub open spec fn first_existing(exists: Seq<bool>) -> int
    decreases exists.len(),
{
    if exists.len() == 0 {
        -1
    } else if first_existing(exists.drop_last()) >= 0 {
        first_existing(exists.drop_last())
    } else if exists.last() {
        exists.len() - 1
    } else {
        -1
    }
}

proof fn lemma_first_existing_prefix(e: Seq<bool>, i: int)
    requires
        0 <= i <= e.len(),
        forall|k: int| 0 <= k < i ==> !#[trigger] e[k],
    ensures
        first_existing(e.take(i)) == -1,
    decreases i,
{
    if i > 0 {
        assert(e.take(i).drop_last() == e.take(i - 1));
        lemma_first_existing_prefix(e, i - 1);
    } else {
        assert(e.take(0).len() == 0);
    }
}

proof fn lemma_first_existing_hit(e: Seq<bool>, i: int)
    requires
        0 <= i < e.len(),
        forall|k: int| 0 <= k < i ==> !#[trigger] e[k],
        e[i],
    ensures
        first_existing(e) == i,
    decreases e.len(),
{
    lemma_first_existing_prefix(e, i);
    if e.len() == i + 1 {
        assert(e.drop_last() == e.take(i));
    } else {
        let d = e.drop_last();
        assert forall|k: int| 0 <= k < i implies !#[trigger] d[k] by {
            assert(d[k] == e[k]);
        }
        lemma_first_existing_hit(d, i);
    }
}

/// The browser to launch: `CHROME_PATH` when set to a place that exists; else the first usual
/// place that exists; else the per-user install when it exists; else the first usual place.
pub open spec fn chosen_chrome(
    env_path: Option<Seq<char>>,
    env_exists: bool,
    candidates: Seq<Seq<char>>,
    exists: Seq<bool>,
    user_path: Option<Seq<char>>,
    user_exists: bool,
) -> Seq<char> {
    if env_path is Some && env_exists {
        env_path.unwrap()
    } else if first_existing(exists) >= 0 {
        candidates[first_existing(exists)]
    } else if user_path is Some && user_exists {
        user_path.unwrap()
    } else {
        candidates[0]
    }
}

/// `CHROME_PATH` is chosen whenever it is set to a place that exists, whatever else exists;
/// otherwise the first usual place that exists is chosen, whatever comes after it; otherwise the
/// per-user install when it exists; otherwise the first usual place.
pub proof fn law_chrome_choice(
    env_path: Option<Seq<char>>,
    env_exists: bool,
    candidates: Seq<Seq<char>>,
    exists: Seq<bool>,
    user_path: Option<Seq<char>>,
    user_exists: bool,
    i: int,
)
    requires
        exists.len() == candidates.len(),
    ensures
        env_path is Some && env_exists ==> chosen_chrome(
            env_path,
            env_exists,
            candidates,
            exists,
            user_path,
            user_exists,
        ) == env_path->0,
        !(env_path is Some && env_exists) && 0 <= i < exists.len() && exists[i] && (forall|k: int|
            0 <= k < i ==> !#[trigger] exists[k]) ==> chosen_chrome(
            env_path,
            env_exists,
            candidates,
            exists,
            user_path,
            user_exists,
        ) == candidates[i],
        !(env_path is Some && env_exists) && (forall|k: int| 0 <= k < exists.len() ==> !#[trigger] exists[k])
            ==> chosen_chrome(env_path, env_exists, candidates, exists, user_path, user_exists) == (
        if user_path is Some && user_exists {
            user_path->0
        } else {
            candidates[0]
        }),
{
    if 0 <= i < exists.len() && exists[i] && (forall|k: int| 0 <= k < i ==> !#[trigger] exists[k]) {
        lemma_first_existing_hit(exists, i);
    }
    if forall|k: int| 0 <= k < exists.len() ==> !#[trigger] exists[k] {
        lemma_first_existing_prefix(exists, exists.len() as int);
        assert(exists.take(exists.len() as int) =~= exists);
    }
}

/// Chooses the browser to launch from what was found on disk: whether `CHROME_PATH` (when set)
/// exists, which usual places exist, and whether the per-user install (when there is a local
/// application-data folder) exists.
pub fn resolve_chrome(
    env_path: Option<&str>,
    env_exists: bool,
    candidates: &Vec<String>,
    exists: &Vec<bool>,
    user_path: Option<&str>,
    user_exists: bool,
) -> (r: String)
    requires
        candidates@.len() >= 1,
        exists@.len() == candidates@.len(),
    ensures
        r@ == chosen_chrome(
            match env_path {
                Some(p) => Some(p@),
                None => None,
            },
            env_exists,
            crate::text::strings(candidates@),
            exists@,
            match user_path {
                Some(p) => Some(p@),
                None => None,
            },
            user_exists,
        ),
        env_path is Some && env_exists ==> r@ == env_path->0@,
{
    match env_path {
        Some(p) => {
            if env_exists {
                return p.to_owned();
            }
        },
        None => {},
    }
    let mut i: usize = 0;
    while i < exists.len()
        invariant
            0 <= i <= exists@.len(),
            exists@.len() == candidates@.len(),
            !(env_path is Some && env_exists),
            forall|k: int| 0 <= k < i ==> !#[trigger] exists@[k],
        decreases exists.len() - i,
    {
        if exists[i] {
            proof {
                lemma_first_existing_hit(exists@, i as int);
            }
            return candidates[i].clone();
        }
        i = i + 1;
    }
    proof {
        lemma_first_existing_prefix(exists@, exists@.len() as int);
        assert(exists@.take(exists@.len() as int) == exists@);
    }
    match user_path {
        Some(u) => {
            if user_exists {
                return u.to_owned();
            }
        },
        None => {},
    }
    candidates[0].clone()
}

} // verus!
