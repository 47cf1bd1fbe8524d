use vstd::prelude::*;
use crate::clock::now_rfc3339;
use crate::table::{lemma_filter_step, lookup, removed, upserted, views, Keyed, Table};
use crate::text::str_eq;

verus! {

/// An extension of the shared catalog.
#[derive(Debug)]
pub struct Extension {
    pub id: String,
    pub name: String,
    pub description: String,
    pub install_url: String,
    pub is_required: bool,
    pub is_blocked: bool,
    pub created_at: String,
}

/// Whether a profile has a catalog extension switched on.
#[derive(Debug)]
pub struct ProfileExtension {
    pub profile_id: String,
    pub extension_id: String,
    pub extension_name: String,
    pub enabled: bool,
    pub installed_at: String,
}

impl View for Extension {
    type V = Extension;

    open spec fn view(&self) -> Extension {
        *self
    }
}

impl Keyed for Extension {
    open spec fn key(&self) -> Seq<char> {
        self.id@
    }

    fn key_string(&self) -> (r: &String) {
        &self.id
    }

    fn duplicate(&self) -> (r: Self) {
        Extension {
            id: self.id.clone(),
            name: self.name.clone(),
            description: self.description.clone(),
            install_url: self.install_url.clone(),
            is_required: self.is_required,
            is_blocked: self.is_blocked,
            created_at: self.created_at.clone(),
        }
    }
}

impl ProfileExtension {
    /// An exact copy.
    pub fn duplicate(&self) -> (r: Self)
        ensures
            r == *self,
    {
        ProfileExtension {
            profile_id: self.profile_id.clone(),
            extension_id: self.extension_id.clone(),
            extension_name: self.extension_name.clone(),
            enabled: self.enabled,
            installed_at: self.installed_at.clone(),
        }
    }
}

/// The position of the first entry for (`profile_id`, `extension_id`), or -1.
pub open spec fn entry_index(exts: Seq<ProfileExtension>, profile_id: Seq<char>, extension_id: Seq<char>) -> int
    decreases exts.len(),
{
    if exts.len() == 0 {
        -1
    } else if entry_index(exts.drop_last(), profile_id, extension_id) >= 0 {
        entry_index(exts.drop_last(), profile_id, extension_id)
    } else if exts.last().profile_id@ == profile_id && exts.last().extension_id@ == extension_id {
        exts.len() - 1
    } else {
        -1
    }
}

proof fn lemma_entry_none(exts: Seq<ProfileExtension>, p: Seq<char>, e: Seq<char>, i: int)
    requires
        0 <= i <= exts.len(),
        forall|k: int| 0 <= k < i ==> !(#[trigger] exts[k].profile_id@ == p && exts[k].extension_id@ == e),
    ensures
        entry_index(exts.take(i), p, e) == -1,
    decreases i,
{
    if i > 0 {
        assert(exts.take(i).drop_last() == exts.take(i - 1));
        lemma_entry_none(exts, p, e, i - 1);
    } else {
        assert(exts.take(0).len() == 0);
    }
}

proof fn lemma_entry_hit(exts: Seq<ProfileExtension>, p: Seq<char>, e: Seq<char>, i: int)
    requires
        0 <= i < exts.len(),
        entry_index(exts.take(i), p, e) == -1,
        exts[i].profile_id@ == p && exts[i].extension_id@ == e,
    ensures
        entry_index(exts, p, e) == i,
    decreases exts.len(),
{
    if exts.len() == i + 1 {
        assert(exts.drop_last() == exts.take(i));
    } else {
        let d = exts.drop_last();
        assert(d.take(i) == exts.take(i));
        lemma_entry_hit(d, p, e, i);
    }
}

/// The extension catalog and the per-profile extension states.
pub struct ExtensionManager {
    pub catalog: Table<Extension>,
    pub profile_exts: Vec<ProfileExtension>,
}

impl ExtensionManager {
    pub open spec fn wf(&self) -> bool {
        self.catalog.wf()
    }

    /// Empty catalog, no states.
    pub fn new() -> (m: Self)
        ensures
            m.wf(),
            m.catalog.rows@ == Seq::<Extension>::empty(),
            m.profile_exts@ == Seq::<ProfileExtension>::empty(),
    {
        ExtensionManager { catalog: Table::new(), profile_exts: Vec::new() }
    }

    /// The catalog.
    pub fn list_catalog(&self) -> (r: Vec<Extension>)
        ensures
            views(r@) == views(self.catalog.rows@),
    {
        self.catalog.copies()
    }

    /// Adds an extension to the catalog under `ext_id`, replacing one stored there.
    pub fn add_to_catalog(
        &mut self,
        ext_id: String,
        name: String,
        description: String,
        install_url: String,
        is_required: bool,
        is_blocked: bool,
    ) -> (e: Extension)
        requires
            old(self).wf(),
        ensures
            final(self).wf(),
            e.id == ext_id && e.name == name && e.description == description,
            e.install_url == install_url && e.is_required == is_required && e.is_blocked == is_blocked,
            final(self).catalog.rows@ == upserted(old(self).catalog.rows@, e),
            final(self).profile_exts == old(self).profile_exts,
    {
        let now = now_rfc3339();
        let ext = Extension { id: ext_id, name, description, install_url, is_required, is_blocked, created_at: now };
        self.catalog.upsert(ext.duplicate());
        ext
    }

    /// Removes an extension from the catalog.
    pub fn remove_from_catalog(&mut self, id: &str)
        requires
            old(self).wf(),
        ensures
            final(self).wf(),
            final(self).catalog.rows@ == removed(old(self).catalog.rows@, id@),
            final(self).profile_exts == old(self).profile_exts,
    {
        self.catalog.remove_key(id);
    }

    /// The extension states of `profile_id`.
    pub fn list_profile_extensions(&self, profile_id: &str) -> (r: Vec<ProfileExtension>)
        ensures
            r@ == self.profile_exts@.filter(|e: ProfileExtension| e.profile_id@ == profile_id@),
    {
        let rows = &self.profile_exts;
        let ghost pred = |e: ProfileExtension| e.profile_id@ == profile_id@;
        let mut r: Vec<ProfileExtension> = Vec::new();
        let mut i: usize = 0;
        while i < rows.len()
            invariant
                0 <= i <= rows@.len(),
                r@ == rows@.take(i as int).filter(pred),
                forall|e: ProfileExtension| #[trigger] pred(e) == (e.profile_id@ == profile_id@),
            decreases rows.len() - i,
        {
            let keep = str_eq(rows[i].profile_id.as_str(), profile_id);
            assert(keep == pred(rows@[i as int]));
            if keep {
                r.push(rows[i].duplicate());
            }
            proof {
                lemma_filter_step(rows@, i as int, pred);
            }
            i = i + 1;
        }
        assert(rows@.take(rows@.len() as int) == rows@);
        r
    }

    /// Switches a catalog extension on or off for a profile. Fails when the extension is not in
    /// the catalog, or is blocked and being switched on; otherwise updates the profile's first
    /// entry for it, or adds one with the catalog name.
    pub fn set_extension_state(&mut self, profile_id: &str, extension_id: &str, enabled: bool) -> (r: Result<(), String>)
        requires
            old(self).wf(),
        ensures
            final(self).wf(),
            final(self).catalog == old(self).catalog,
            match lookup(old(self).catalog.rows@, extension_id@) {
                None => r matches Err(e) && e@ == "Extension not in catalog"@ && final(self).profile_exts@
                    == old(self).profile_exts@,
                Some(x) => if x.is_blocked && enabled {
                    r matches Err(e) && e@ == "Extension is blocked"@ && final(self).profile_exts@
                        == old(self).profile_exts@
                } else {
                    let i = entry_index(old(self).profile_exts@, profile_id@, extension_id@);
                    &&& r is Ok
                    &&& i >= 0 ==> final(self).profile_exts@ == old(self).profile_exts@.update(
                        i,
                        ProfileExtension { enabled: enabled, ..old(self).profile_exts@[i] },
                    )
                    &&& i < 0 ==> final(self).profile_exts@.len() == old(self).profile_exts@.len() + 1
                        && final(self).profile_exts@.drop_last() == old(self).profile_exts@ && ({
                        let n = final(self).profile_exts@.last();
                        n.profile_id@ == profile_id@ && n.extension_id@ == extension_id@
                            && n.extension_name == x.name && n.enabled == enabled
                    })
                },
            },
    {
        let (blocked, ext_name) = match self.catalog.get(extension_id) {
            None => {
                return Err("Extension not in catalog".to_string());
            },
            Some(x) => (x.is_blocked, x.name.clone()),
        };
        if blocked && enabled {
            return Err("Extension is blocked".to_string());
        }
        let mut i: usize = 0;
        while i < self.profile_exts.len()
            invariant
                0 <= i <= self.profile_exts@.len(),
                self.profile_exts == old(self).profile_exts,
                self.catalog == old(self).catalog,
                self.wf(),
                lookup(old(self).catalog.rows@, extension_id@) matches Some(x) && !(x.is_blocked && enabled),
                forall|k: int| 0 <= k < i ==> !(#[trigger] self.profile_exts@[k].profile_id@ == profile_id@
                    && self.profile_exts@[k].extension_id@ == extension_id@),
            decreases self.profile_exts.len() - i,
        {
            let pe = &self.profile_exts[i];
            if str_eq(pe.profile_id.as_str(), profile_id) && str_eq(pe.extension_id.as_str(), extension_id) {
                proof {
                    lemma_entry_none(old(self).profile_exts@, profile_id@, extension_id@, i as int);
                    lemma_entry_hit(old(self).profile_exts@, profile_id@, extension_id@, i as int);
                }
                let mut n = pe.duplicate();
                n.enabled = enabled;
                assert(n == ProfileExtension { enabled: enabled, ..old(self).profile_exts@[i as int] });
                self.profile_exts.set(i, n);
                assert(entry_index(old(self).profile_exts@, profile_id@, extension_id@) == i);
                return Ok(());
            }
            i = i + 1;
        }
        proof {
            lemma_entry_none(old(self).profile_exts@, profile_id@, extension_id@, old(self).profile_exts@.len() as int);
            assert(old(self).profile_exts@.take(old(self).profile_exts@.len() as int) == old(self).profile_exts@);
        }
        self.profile_exts.push(ProfileExtension {
            profile_id: profile_id.to_owned(),
            extension_id: extension_id.to_owned(),
            extension_name: ext_name,
            enabled,
            installed_at: now_rfc3339(),
        });
        assert(self.profile_exts@.drop_last() == old(self).profile_exts@);
        Ok(())
    }
}

} // verus!
