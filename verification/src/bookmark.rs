use vstd::prelude::*;
use crate::clock::{new_uuid, now_rfc3339};
use crate::table::{
    copy_opt, copy_strings, key_index, lookup, removed, upserted, views, Keyed, Table,
};
use crate::text::str_eq;

verus! {

/// A bookmark of one profile.
#[derive(Debug)]
pub struct Bookmark {
    pub id: String,
    pub profile_id: String,
    pub name: String,
    pub url: String,
    pub folder_id: Option<String>,
    pub sort_order: u32,
    pub icon: Option<String>,
    pub created_at: String,
    pub updated_at: String,
}

/// A bookmark folder of one profile.
#[derive(Debug)]
pub struct BookmarkFolder {
    pub id: String,
    pub profile_id: String,
    pub name: String,
    pub parent_id: Option<String>,
    pub created_at: String,
}

/// A named set of bookmarks.
#[derive(Debug)]
pub struct BookmarkSet {
    pub id: String,
    pub profile_id: String,
    pub name: String,
    pub bookmark_ids: Vec<String>,
    pub created_at: String,
}

/// A `BookmarkSet` with its ids as a sequence.
pub struct BookmarkSetView {
    pub id: String,
    pub profile_id: String,
    pub name: String,
    pub bookmark_ids: Seq<String>,
    pub created_at: String,
}

impl View for Bookmark {
    type V = Bookmark;

    open spec fn view(&self) -> Bookmark {
        *self
    }
}

impl Keyed for Bookmark {
    open spec fn key(&self) -> Seq<char> {
        self.id@
    }

    fn key_string(&self) -> (r: &String) {
        &self.id
    }

    fn duplicate(&self) -> (r: Self) {
        Bookmark {
            id: self.id.clone(),
            profile_id: self.profile_id.clone(),
            name: self.name.clone(),
            url: self.url.clone(),
            folder_id: copy_opt(&self.folder_id),
            sort_order: self.sort_order,
            icon: copy_opt(&self.icon),
            created_at: self.created_at.clone(),
            updated_at: self.updated_at.clone(),
        }
    }
}

impl View for BookmarkFolder {
    type V = BookmarkFolder;

    open spec fn view(&self) -> BookmarkFolder {
        *self
    }
}

impl Keyed for BookmarkFolder {
    open spec fn key(&self) -> Seq<char> {
        self.id@
    }

    fn key_string(&self) -> (r: &String) {
        &self.id
    }

    fn duplicate(&self) -> (r: Self) {
        BookmarkFolder {
            id: self.id.clone(),
            profile_id: self.profile_id.clone(),
            name: self.name.clone(),
            parent_id: copy_opt(&self.parent_id),
            created_at: self.created_at.clone(),
        }
    }
}

impl View for BookmarkSet {
    type V = BookmarkSetView;

    open spec fn view(&self) -> BookmarkSetView {
        BookmarkSetView {
            id: self.id,
            profile_id: self.profile_id,
            name: self.name,
            bookmark_ids: self.bookmark_ids@,
            created_at: self.created_at,
        }
    }
}

impl Keyed for BookmarkSet {
    open spec fn key(&self) -> Seq<char> {
        self.id@
    }

    fn key_string(&self) -> (r: &String) {
        &self.id
    }

    fn duplicate(&self) -> (r: Self) {
        BookmarkSet {
            id: self.id.clone(),
            profile_id: self.profile_id.clone(),
            name: self.name.clone(),
            bookmark_ids: copy_strings(&self.bookmark_ids),
            created_at: self.created_at.clone(),
        }
    }
}

/// Whether `b` is listed for `profile_id` and, when one is given, `folder_id`.
pub open spec fn bookmark_listed(b: Bookmark, profile_id: Seq<char>, folder_id: Option<String>) -> bool {
    b.profile_id@ == profile_id && (folder_id is None || b.folder_id == folder_id)
}

/// The bookmarks a set brings to `profile_id`: for each of its ids in order, the bookmark stored
/// under it in `rows`, when there is one and it belongs to another profile.
pub open spec fn set_sources(rows: Seq<Bookmark>, ids: Seq<String>, profile_id: Seq<char>) -> Seq<Bookmark>
    decreases ids.len(),
{
    if ids.len() == 0 {
        Seq::empty()
    } else {
        let r = set_sources(rows, ids.drop_last(), profile_id);
        match lookup(rows, ids.last()@) {
            Some(b) => if b.profile_id@ != profile_id {
                r.push(b)
            } else {
                r
            },
            None => r,
        }
    }
}

/// `c` is a copy of `b` for `profile_id`: the same bookmark, under its own id and for that profile.
pub open spec fn copied_for(c: Bookmark, b: Bookmark, profile_id: Seq<char>) -> bool {
    &&& c == Bookmark { id: c.id, profile_id: c.profile_id, ..b }
    &&& c.profile_id@ == profile_id
}

/// Bookmarks, bookmark folders and bookmark sets of all profiles.
pub struct BookmarkManager {
    pub bookmarks: Table<Bookmark>,
    pub folders: Table<BookmarkFolder>,
    pub sets: Table<BookmarkSet>,
}

fn same_opt(a: &Option<String>, b: &Option<String>) -> (r: bool)
    ensures
        r == (match (a, b) {
            (Some(x), Some(y)) => x@ == y@,
            (None, None) => true,
            _ => false,
        }),
{
    match (a, b) {
        (Some(x), Some(y)) => *x == *y,
        (None, None) => true,
        _ => false,
    }
}

impl BookmarkManager {
    pub open spec fn wf(&self) -> bool {
        self.bookmarks.wf() && self.folders.wf() && self.sets.wf()
    }

    /// Nothing stored.
    pub fn new() -> (m: Self)
        ensures
            m.wf(),
            m.bookmarks.rows@ == Seq::<Bookmark>::empty(),
            m.folders.rows@ == Seq::<BookmarkFolder>::empty(),
            m.sets.rows@ == Seq::<BookmarkSet>::empty(),
    {
        BookmarkManager { bookmarks: Table::new(), folders: Table::new(), sets: Table::new() }
    }

    /// The bookmarks of `profile_id`, only those in `folder_id` when one is given. Folder ids
    /// compare by their text.
    pub fn list(&self, profile_id: &str, folder_id: Option<String>) -> (r: Vec<Bookmark>)
        ensures
            r@ == self.bookmarks.rows@.filter(|b: Bookmark| b.profile_id@ == profile_id@ && (folder_id is None
                || (match (b.folder_id, folder_id) {
                (Some(x), Some(y)) => x@ == y@,
                (None, None) => true,
                _ => false,
            }))),
    {
        let rows = &self.bookmarks.rows;
        let ghost pred = |b: Bookmark| b.profile_id@ == profile_id@ && (folder_id is None
            || (match (b.folder_id, folder_id) {
            (Some(x), Some(y)) => x@ == y@,
            (None, None) => true,
            _ => false,
        }));
        let mut r: Vec<Bookmark> = Vec::new();
        let mut i: usize = 0;
        while i < rows.len()
            invariant
                0 <= i <= rows@.len(),
                r@ == rows@.take(i as int).filter(pred),
                forall|b: Bookmark| #[trigger] pred(b) == (b.profile_id@ == profile_id@ && (folder_id is None
                    || (match (b.folder_id, folder_id) {
                    (Some(x), Some(y)) => x@ == y@,
                    (None, None) => true,
                    _ => false,
                }))),
            decreases rows.len() - i,
        {
            let b = &rows[i];
            let keep = str_eq(b.profile_id.as_str(), profile_id) && (folder_id.is_none() || same_opt(&b.folder_id, &folder_id));
            assert(keep == pred(rows@[i as int]));
            if keep {
                r.push(b.duplicate());
            }
            proof {
                crate::table::lemma_filter_step(rows@, i as int, pred);
            }
            i = i + 1;
        }
        assert(rows@.take(rows@.len() as int) == rows@);
        r
    }

    /// Creates a bookmark with a fresh id at sort position 0 and no icon.
    pub fn create(&mut self, profile_id: &str, name: &str, url: &str, folder_id: Option<String>) -> (b: Bookmark)
        requires
            old(self).wf(),
        ensures
            final(self).wf(),
            b.profile_id@ == profile_id@ && b.name@ == name@ && b.url@ == url@,
            b.folder_id == folder_id && b.sort_order == 0 && b.icon is None,
            b.created_at == b.updated_at,
            b.id@.len() == 36,
            final(self).bookmarks.rows@ == upserted(old(self).bookmarks.rows@, b),
            final(self).folders == old(self).folders,
            final(self).sets == old(self).sets,
    {
        let id = new_uuid();
        let now = now_rfc3339();
        let bm = Bookmark {
            id,
            profile_id: profile_id.to_owned(),
            name: name.to_owned(),
            url: url.to_owned(),
            folder_id,
            sort_order: 0,
            icon: None,
            created_at: now.clone(),
            updated_at: now,
        };
        self.bookmarks.upsert(bm.duplicate());
        bm
    }

    /// Changes the given fields of a bookmark.
    pub fn update(
        &mut self,
        id: &str,
        name: Option<String>,
        url: Option<String>,
        folder_id: Option<Option<String>>,
        sort_order: Option<u32>,
    ) -> (r: Result<Bookmark, String>)
        requires
            old(self).wf(),
        ensures
            final(self).wf(),
            final(self).folders == old(self).folders,
            final(self).sets == old(self).sets,
            match lookup(old(self).bookmarks.rows@, id@) {
                None => r matches Err(e) && e@ == "Bookmark not found"@ && final(self).bookmarks.rows@
                    == old(self).bookmarks.rows@,
                Some(b) => r matches Ok(q) && q == (Bookmark {
                    name: match name { Some(n) => n, None => b.name },
                    url: match url { Some(u) => u, None => b.url },
                    folder_id: match folder_id { Some(f) => f, None => b.folder_id },
                    sort_order: match sort_order { Some(s) => s, None => b.sort_order },
                    updated_at: q.updated_at,
                    ..b
                }) && final(self).bookmarks.rows@ == old(self).bookmarks.rows@.update(
                    key_index(old(self).bookmarks.rows@, id@),
                    q,
                ),
            },
    {
        match self.bookmarks.find(id) {
            None => Err("Bookmark not found".to_string()),
            Some(i) => {
                let mut b = self.bookmarks.rows[i].duplicate();
                if let Some(n) = name {
                    b.name = n;
                }
                if let Some(u) = url {
                    b.url = u;
                }
                if let Some(f) = folder_id {
                    b.folder_id = f;
                }
                if let Some(s) = sort_order {
                    b.sort_order = s;
                }
                b.updated_at = now_rfc3339();
                self.bookmarks.set_at(i, b.duplicate());
                Ok(b)
            },
        }
    }

    /// Deletes a bookmark.
    pub fn delete(&mut self, id: &str)
        requires
            old(self).wf(),
        ensures
            final(self).wf(),
            final(self).bookmarks.rows@ == removed(old(self).bookmarks.rows@, id@),
            final(self).folders == old(self).folders,
            final(self).sets == old(self).sets,
    {
        self.bookmarks.remove_key(id);
    }

    /// Creates a bookmark folder with a fresh id.
    pub fn create_folder(&mut self, profile_id: &str, name: &str, parent_id: Option<String>) -> (f: BookmarkFolder)
        requires
            old(self).wf(),
        ensures
            final(self).wf(),
            f.profile_id@ == profile_id@ && f.name@ == name@ && f.parent_id == parent_id,
            f.id@.len() == 36,
            final(self).folders.rows@ == upserted(old(self).folders.rows@, f),
            final(self).bookmarks == old(self).bookmarks,
            final(self).sets == old(self).sets,
    {
        let id = new_uuid();
        let now = now_rfc3339();
        let folder = BookmarkFolder {
            id,
            profile_id: profile_id.to_owned(),
            name: name.to_owned(),
            parent_id,
            created_at: now,
        };
        self.folders.upsert(folder.duplicate());
        folder
    }

    /// The bookmark folders of `profile_id`.
    pub fn list_folders(&self, profile_id: &str) -> (r: Vec<BookmarkFolder>)
        ensures
            r@ == self.folders.rows@.filter(|f: BookmarkFolder| f.profile_id@ == profile_id@),
    {
        let rows = &self.folders.rows;
        let ghost pred = |f: BookmarkFolder| f.profile_id@ == profile_id@;
        let mut r: Vec<BookmarkFolder> = Vec::new();
        let mut i: usize = 0;
        while i < rows.len()
            invariant
                0 <= i <= rows@.len(),
                r@ == rows@.take(i as int).filter(pred),
                forall|f: BookmarkFolder| #[trigger] pred(f) == (f.profile_id@ == profile_id@),
            decreases rows.len() - i,
        {
            let keep = str_eq(rows[i].profile_id.as_str(), profile_id);
            assert(keep == pred(rows@[i as int]));
            if keep {
                r.push(rows[i].duplicate());
            }
            proof {
                crate::table::lemma_filter_step(rows@, i as int, pred);
            }
            i = i + 1;
        }
        assert(rows@.take(rows@.len() as int) == rows@);
        r
    }

    /// Creates a bookmark set with a fresh id.
    pub fn create_set(&mut self, profile_id: &str, name: &str, bookmark_ids: Vec<String>) -> (s: BookmarkSet)
        requires
            old(self).wf(),
        ensures
            final(self).wf(),
            s.profile_id@ == profile_id@ && s.name@ == name@ && s.bookmark_ids@ == bookmark_ids@,
            s.id@.len() == 36,
            lookup(final(self).sets.rows@, s.id@) matches Some(x) && x@ == s@,
            views(final(self).sets.rows@) == views(upserted(old(self).sets.rows@, s)),
            final(self).bookmarks == old(self).bookmarks,
            final(self).folders == old(self).folders,
    {
        let id = new_uuid();
        let now = now_rfc3339();
        let set = BookmarkSet {
            id,
            profile_id: profile_id.to_owned(),
            name: name.to_owned(),
            bookmark_ids,
            created_at: now,
        };
        let ret = set.duplicate();
        let ghost gs = set;
        self.sets.upsert(set);
        proof {
            crate::table::lemma_lookup_upserted(old(self).sets.rows@, gs, gs.id@);
            let u = upserted(old(self).sets.rows@, ret);
            let w = upserted(old(self).sets.rows@, gs);
            assert(ret.key() == gs.key());
            assert(views(w) =~= views(u));
        }
        ret
    }

    /// The bookmark sets of `profile_id`.
    pub fn list_sets(&self, profile_id: &str) -> (r: Vec<BookmarkSet>)
        ensures
            views(r@) == views(self.sets.rows@.filter(|s: BookmarkSet| s.profile_id@ == profile_id@)),
    {
        let rows = &self.sets.rows;
        let ghost pred = |s: BookmarkSet| s.profile_id@ == profile_id@;
        let mut r: Vec<BookmarkSet> = Vec::new();
        let mut i: usize = 0;
        while i < rows.len()
            invariant
                0 <= i <= rows@.len(),
                views(r@) == views(rows@.take(i as int).filter(pred)),
                forall|x: BookmarkSet| #[trigger] pred(x) == (x.profile_id@ == profile_id@),
            decreases rows.len() - i,
        {
            let ghost before = r@;
            let keep = str_eq(rows[i].profile_id.as_str(), profile_id);
            assert(keep == pred(rows@[i as int]));
            if keep {
                let x = rows[i].duplicate();
                r.push(x);
                proof {
                    assert(views(r@) =~= views(before).push(x@));
                }
            }
            proof {
                crate::table::lemma_filter_step(rows@, i as int, pred);
                let t = rows@.take(i + 1);
                let f_old = rows@.take(i as int).filter(pred);
                if pred(rows@[i as int]) {
                    assert(t.filter(pred) == f_old.push(rows@[i as int]));
                    assert(views(f_old.push(rows@[i as int])) =~= views(f_old).push(rows@[i as int]@));
                } else {
                    assert(t.filter(pred) == f_old);
                }
            }
            i = i + 1;
        }
        assert(rows@.take(rows@.len() as int) == rows@);
        r
    }

    /// Applies a bookmark set to a profile: fails when the set does not exist; otherwise each
    /// bookmark of the set that belongs to another profile gets a copy for `profile_id` under a
    /// fresh id, in the order of the set, after the bookmarks already stored.
    pub fn apply_set(&mut self, profile_id: &str, set_id: &str) -> (r: Result<(), String>)
        requires
            old(self).wf(),
        ensures
            final(self).wf(),
            final(self).folders == old(self).folders,
            final(self).sets == old(self).sets,
            match lookup(old(self).sets.rows@, set_id@) {
                None => (r matches Err(e) && e@ == "Set not found"@) && final(self).bookmarks == old(self).bookmarks,
                Some(set) => {
                    let src = set_sources(old(self).bookmarks.rows@, set.bookmark_ids@, profile_id@);
                    let n = old(self).bookmarks.rows@.len();
                    &&& r is Ok
                    &&& final(self).bookmarks.rows@.len() == n + src.len()
                    &&& final(self).bookmarks.rows@.take(n as int) == old(self).bookmarks.rows@
                    &&& forall|k: int| 0 <= k < src.len() ==> copied_for(
                        #[trigger] final(self).bookmarks.rows@[n + k],
                        src[k],
                        profile_id@,
                    )
                },
            },
    {
        let ids: Vec<String> = match self.sets.get(set_id) {
            None => {
                return Err("Set not found".to_string());
            },
            Some(set) => copy_strings(&set.bookmark_ids),
        };
        let ghost rows0 = self.bookmarks.rows@;
        let ghost n = rows0.len();
        let mut srcs: Vec<Bookmark> = Vec::new();
        let mut i: usize = 0;
        while i < ids.len()
            invariant
                0 <= i <= ids@.len(),
                self.bookmarks.rows@ == rows0,
                self.bookmarks.wf(),
                srcs@ == set_sources(rows0, ids@.take(i as int), profile_id@),
            decreases ids.len() - i,
        {
            proof {
                assert(ids@.take(i + 1).drop_last() =~= ids@.take(i as int));
                assert(ids@.take(i + 1).last() == ids@[i as int]);
            }
            match self.bookmarks.get(ids[i].as_str()) {
                Some(b) => {
                    if !str_eq(b.profile_id.as_str(), profile_id) {
                        srcs.push(b.duplicate());
                    }
                },
                None => {},
            }
            i = i + 1;
        }
        proof {
            assert(ids@.take(ids@.len() as int) =~= ids@);
        }
        let mut k: usize = 0;
        while k < srcs.len()
            invariant
                0 <= k <= srcs@.len(),
                self.bookmarks.wf(),
                self.folders == old(self).folders,
                self.sets == old(self).sets,
                self.bookmarks.rows@.len() == n + k,
                self.bookmarks.rows@.take(n as int) == rows0,
                n == rows0.len(),
                forall|j: int| 0 <= j < k ==> copied_for(#[trigger] self.bookmarks.rows@[n + j], srcs@[j], profile_id@),
            decreases srcs.len() - k,
        {
            let b = &srcs[k];
            let id = self.bookmarks.fresh_key(new_uuid());
            let c = Bookmark {
                id,
                profile_id: profile_id.to_owned(),
                name: b.name.clone(),
                url: b.url.clone(),
                folder_id: copy_opt(&b.folder_id),
                sort_order: b.sort_order,
                icon: copy_opt(&b.icon),
                created_at: b.created_at.clone(),
                updated_at: b.updated_at.clone(),
            };
            let ghost before = self.bookmarks.rows@;
            self.bookmarks.upsert(c);
            proof {
                assert(self.bookmarks.rows@ == before.push(c));
                assert(self.bookmarks.rows@.take(n as int) =~= before.take(n as int));
                assert forall|j: int| 0 <= j < k + 1 implies copied_for(
                    #[trigger] self.bookmarks.rows@[n + j],
                    srcs@[j],
                    profile_id@,
                ) by {
                    if j < k {
                        assert(self.bookmarks.rows@[n + j] == before[n + j]);
                    }
                }
            }
            k = k + 1;
        }
        Ok(())
    }

    /// Deletes a bookmark set.
    pub fn delete_set(&mut self, id: &str)
        requires
            old(self).wf(),
        ensures
            final(self).wf(),
            final(self).sets.rows@ == removed(old(self).sets.rows@, id@),
            final(self).bookmarks == old(self).bookmarks,
            final(self).folders == old(self).folders,
    {
        self.sets.remove_key(id);
    }
}

} // verus!
