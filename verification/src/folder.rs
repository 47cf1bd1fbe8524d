use vstd::prelude::*;
use crate::clock::{new_uuid, now_rfc3339};
use crate::table::{
    copy_opt, key_index, lemma_key_index, lookup, removed, upserted, views, Keyed, Table,
};

verus! {

/// A folder that groups profiles.
#[derive(Debug)]
pub struct ProfileFolder {
    pub id: String,
    pub name: String,
    pub parent_id: Option<String>,
    pub color: Option<String>,
    pub sort_order: u32,
    pub created_at: String,
    pub updated_at: String,
}

impl View for ProfileFolder {
    type V = ProfileFolder;

    open spec fn view(&self) -> ProfileFolder {
        *self
    }
}

impl Keyed for ProfileFolder {
    open spec fn key(&self) -> Seq<char> {
        self.id@
    }

    fn key_string(&self) -> (r: &String) {
        &self.id
    }

    fn duplicate(&self) -> (r: Self) {
        ProfileFolder {
            id: self.id.clone(),
            name: self.name.clone(),
            parent_id: copy_opt(&self.parent_id),
            color: copy_opt(&self.color),
            sort_order: self.sort_order,
            created_at: self.created_at.clone(),
            updated_at: self.updated_at.clone(),
        }
    }
}

/// The profile folders, by id.
pub struct FolderManager {
    pub folders: Table<ProfileFolder>,
}

impl FolderManager {
    pub open spec fn wf(&self) -> bool {
        self.folders.wf()
    }

    /// The folders, in storage order.
    pub open spec fn rows(&self) -> Seq<ProfileFolder> {
        self.folders.rows@
    }

    /// No folders.
    pub fn new() -> (m: Self)
        ensures
            m.wf(),
            m.rows() == Seq::<ProfileFolder>::empty(),
    {
        FolderManager { folders: Table::new() }
    }

    /// Stores a folder read from disk, replacing one stored under the same id.
    pub fn put(&mut self, f: ProfileFolder)
        requires
            old(self).wf(),
        ensures
            final(self).wf(),
            final(self).rows() == upserted(old(self).rows(), f),
    {
        self.folders.upsert(f);
    }

    /// Creates a folder with a fresh id at sort position 0.
    pub fn create(&mut self, name: &str, parent_id: Option<String>, color: Option<String>) -> (f: ProfileFolder)
        requires
            old(self).wf(),
        ensures
            final(self).wf(),
            f.name@ == name@,
            f.parent_id == parent_id,
            f.color == color,
            f.sort_order == 0,
            f.created_at == f.updated_at,
            f.id@.len() == 36,
            final(self).rows() == upserted(old(self).rows(), f),
    {
        let id = new_uuid();
        let now = now_rfc3339();
        let folder = ProfileFolder {
            id,
            name: name.to_owned(),
            parent_id,
            color,
            sort_order: 0,
            created_at: now.clone(),
            updated_at: now,
        };
        self.folders.upsert(folder.duplicate());
        folder
    }

    /// All folders.
    pub fn list_all(&self) -> (r: Vec<ProfileFolder>)
        ensures
            r@ == self.rows(),
    {
        let r = self.folders.copies();
        proof {
            assert(views(r@).len() == r@.len());
            assert(views(self.rows()).len() == self.rows().len());
            assert forall|k: int| 0 <= k < r@.len() implies r@[k] == self.rows()[k] by {
                assert(views(r@)[k] == views(self.rows())[k]);
            }
            assert(r@ =~= self.rows());
        }
        r
    }

    /// Renames and recolours a folder; absent values leave fields unchanged.
    pub fn update(&mut self, id: &str, name: Option<String>, color: Option<String>) -> (r: Result<ProfileFolder, String>)
        requires
            old(self).wf(),
        ensures
            final(self).wf(),
            match lookup(old(self).rows(), id@) {
                None => r matches Err(e) && e@ == "Folder not found"@ && final(self).rows() == old(self).rows(),
                Some(f) => r matches Ok(q) && q == (ProfileFolder {
                    name: match name { Some(n) => n, None => f.name },
                    color: match color { Some(c) => Some(c), None => f.color },
                    updated_at: q.updated_at,
                    ..f
                }) && final(self).rows() == old(self).rows().update(key_index(old(self).rows(), id@), q),
            },
    {
        match self.folders.find(id) {
            None => Err("Folder not found".to_string()),
            Some(i) => {
                let mut f = self.folders.rows[i].duplicate();
                if let Some(n) = name {
                    f.name = n;
                }
                if let Some(c) = color {
                    f.color = Some(c);
                }
                f.updated_at = now_rfc3339();
                self.folders.set_at(i, f.duplicate());
                Ok(f)
            },
        }
    }

    /// Deletes a folder.
    pub fn delete(&mut self, id: &str)
        requires
            old(self).wf(),
        ensures
            final(self).wf(),
            final(self).rows() == removed(old(self).rows(), id@),
    {
        self.folders.remove_key(id);
    }
}

} // verus!
