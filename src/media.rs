//! The media table and its insert paths: insert-or-get on the natural key
//! (the name), blind insertion, lookups, updates and deletions.
use vstd::prelude::*;
use crate::retry::DatabaseError;

verus! {

/// Kind of a media entry.
#[derive(Clone, Copy, Debug, PartialEq, Eq, Structural)]
pub enum MediaType {
    Movie,
    Tv,
    Episode,
}

/// A media entry: a movie, a tv show or an episode of one.
pub struct Media {
    /// Unique id assigned on insertion.
    pub id: i32,
    /// The library the entry belongs to.
    pub library_id: i32,
    /// Title of the movie, show or episode.
    pub name: String,
    pub description: Option<String>,
    pub rating: Option<i32>,
    pub year: Option<i32>,
    /// When the entry was inserted.
    pub added: Option<String>,
    pub poster_path: Option<String>,
    pub backdrop_path: Option<String>,
    pub media_type: Option<MediaType>,
}

impl PartialEq for Media {
    /// Two entries are the same entry when their ids agree.
    fn eq(&self, other: &Media) -> (r: bool)
        ensures
            r == (self.id == other.id),
    {
        self.id == other.id
    }
}

impl vstd::std_specs::cmp::PartialEqSpecImpl for Media {
    open spec fn obeys_eq_spec() -> bool {
        true
    }

    open spec fn eq_spec(&self, other: &Media) -> bool {
        self.id == other.id
    }
}

/// A media entry to insert: an entry without its id.
pub struct InsertableMedia {
    pub library_id: i32,
    pub name: String,
    pub description: Option<String>,
    pub rating: Option<i32>,
    pub year: Option<i32>,
    pub added: String,
    pub poster_path: Option<String>,
    pub backdrop_path: Option<String>,
    pub media_type: MediaType,
}

/// Changes to a media entry: each field that is set replaces the stored one.
pub struct UpdateMedia {
    pub name: Option<String>,
    pub description: Option<String>,
    pub rating: Option<i32>,
    pub year: Option<i32>,
    pub added: Option<String>,
    pub poster_path: Option<String>,
    pub backdrop_path: Option<String>,
    pub media_type: Option<MediaType>,
}

/// What an entry is recorded as besides its media row.
#[derive(Clone, Copy, Debug, PartialEq, Eq, Structural)]
pub enum MediaKind {
    /// It can be streamed (movies and episodes).
    Streamable,
    Movie,
    Episode,
    TvShow,
}

/// The kinds of streamable entries.
#[derive(Clone, Copy, Debug, PartialEq, Eq, Structural)]
pub enum StreamableKind {
    Movie,
    Episode,
}

/// The kinds of entries that cannot be streamed.
#[derive(Clone, Copy, Debug, PartialEq, Eq, Structural)]
pub enum StaticKind {
    TvShow,
}

/// The libraries and media tables.
pub struct MediaTable {
    /// Ids of the existing libraries.
    pub libraries: Vec<i32>,
    pub rows: Vec<Media>,
    /// Kind records: an entry id and what it is recorded as.
    pub markers: Vec<(i32, MediaKind)>,
    /// The id the next inserted entry receives.
    pub next_id: i32,
}

/// The entry that inserting `m` creates under id `id`.
pub open spec fn media_from(m: InsertableMedia, id: i32) -> Media {
    Media {
        id,
        library_id: m.library_id,
        name: m.name,
        description: m.description,
        rating: m.rating,
        year: m.year,
        added: Some(m.added),
        poster_path: m.poster_path,
        backdrop_path: m.backdrop_path,
        media_type: Some(m.media_type),
    }
}

/// `m` with each field that `u` sets replaced.
pub open spec fn updated(m: Media, u: UpdateMedia) -> Media {
    Media {
        id: m.id,
        library_id: m.library_id,
        name: match u.name {
            Some(n) => n,
            None => m.name,
        },
        description: if u.description is Some { u.description } else { m.description },
        rating: if u.rating is Some { u.rating } else { m.rating },
        year: if u.year is Some { u.year } else { m.year },
        added: if u.added is Some { u.added } else { m.added },
        poster_path: if u.poster_path is Some { u.poster_path } else { m.poster_path },
        backdrop_path: if u.backdrop_path is Some { u.backdrop_path } else { m.backdrop_path },
        media_type: if u.media_type is Some { u.media_type } else { m.media_type },
    }
}

fn copy_text(o: &Option<String>) -> (r: Option<String>)
    ensures
        r == *o,
{
    match o {
        None => None,
        Some(s) => Some(s.clone()),
    }
}

impl MediaTable {
    /// The table's invariant: ids are positive, distinct, and below `next_id`.
    pub open spec fn wf(self) -> bool {
        &&& self.next_id > 0
        &&& forall|i: int|
            0 <= i < self.rows@.len() ==> 0 < (#[trigger] self.rows@[i]).id < self.next_id
        &&& forall|i: int, j: int|
            0 <= i < j < self.rows@.len() ==> (#[trigger] self.rows@[i]).id
                != (#[trigger] self.rows@[j]).id
    }

    /// Whether the library `id` exists.
    pub open spec fn has_library(self, id: i32) -> bool {
        self.libraries@.contains(id)
    }

    /// Whether an entry named `name` exists.
    pub open spec fn has_named(self, name: Seq<char>) -> bool {
        exists|i: int| 0 <= i < self.rows@.len() && (#[trigger] self.rows@[i]).name@ == name
    }

    /// The entries named `name`.
    pub open spec fn named(self, name: Seq<char>) -> Seq<Media> {
        self.rows@.filter(|m: Media| m.name@ == name)
    }

    /// Empty tables holding the given libraries.
    pub fn new(libraries: Vec<i32>) -> (t: MediaTable)
        ensures
            t.wf(),
            t.libraries == libraries,
            t.rows@.len() == 0,
            t.markers@.len() == 0,
    {
        MediaTable { libraries, rows: Vec::new(), markers: Vec::new(), next_id: 1 }
    }

    fn library_exists(&self, id: i32) -> (r: bool)
        ensures
            r == self.has_library(id),
    {
        let mut i: usize = 0;
        while i < self.libraries.len()
            invariant
                0 <= i <= self.libraries@.len(),
                forall|j: int| 0 <= j < i ==> self.libraries@[j] != id,
            decreases self.libraries@.len() - i,
        {
            if self.libraries[i] == id {
                assert(self.libraries@[i as int] == id);
                return true;
            }
            i = i + 1;
        }
        false
    }

    /// Position of the first entry named `name`.
    fn find_named(&self, name: &String) -> (r: Option<usize>)
        ensures
            match r {
                Some(i) => i < self.rows@.len() && self.rows@[i as int].name@ == name@,
                None => !self.has_named(name@),
            },
    {
        let mut i: usize = 0;
        while i < self.rows.len()
            invariant
                0 <= i <= self.rows@.len(),
                forall|j: int| 0 <= j < i ==> (#[trigger] self.rows@[j]).name@ != name@,
            decreases self.rows@.len() - i,
        {
            if self.rows[i].name == *name {
                return Some(i);
            }
            i = i + 1;
        }
        None
    }

    /// Position of the entry with id `id`.
    fn find_id(&self, id: i32) -> (r: Option<usize>)
        ensures
            match r {
                Some(i) => i < self.rows@.len() && self.rows@[i as int].id == id,
                None => forall|j: int| 0 <= j < self.rows@.len() ==> (#[trigger] self.rows@[j]).id != id,
            },
    {
        let mut i: usize = 0;
        while i < self.rows.len()
            invariant
                0 <= i <= self.rows@.len(),
                forall|j: int| 0 <= j < i ==> (#[trigger] self.rows@[j]).id != id,
            decreases self.rows@.len() - i,
        {
            if self.rows[i].id == id {
                return Some(i);
            }
            i = i + 1;
        }
        None
    }

    /// Appends the entry for `m` under the next id.
    fn append(&mut self, m: &InsertableMedia) -> (r: Result<i32, DatabaseError>)
        requires
            old(self).wf(),
        ensures
            final(self).wf(),
            final(self).libraries == old(self).libraries,
            final(self).markers == old(self).markers,
            old(self).next_id == i32::MAX ==> r == Err::<i32, DatabaseError>(DatabaseError::IdOverflow)
                && *final(self) == *old(self),
            old(self).next_id < i32::MAX ==> r == Ok::<i32, DatabaseError>(old(self).next_id)
                && final(self).rows@ == old(self).rows@.push(media_from(*m, old(self).next_id))
                && final(self).next_id == old(self).next_id + 1,
    {
        if self.next_id == i32::MAX {
            return Err(DatabaseError::IdOverflow);
        }
        let id = self.next_id;
        let row = Media {
            id,
            library_id: m.library_id,
            name: m.name.clone(),
            description: copy_text(&m.description),
            rating: m.rating,
            year: m.year,
            added: Some(m.added.clone()),
            poster_path: copy_text(&m.poster_path),
            backdrop_path: copy_text(&m.backdrop_path),
            media_type: Some(m.media_type),
        };
        let ghost before = self.rows@;
        self.rows.push(row);
        self.next_id = id + 1;
        proof {
            assert forall|a: int, b: int| 0 <= a < b < self.rows@.len() implies (#[trigger] self.rows@[a]).id != (#[trigger] self.rows@[b]).id by {
                assert(self.rows@[a] == before[a]);
                if b < before.len() {
                    assert(self.rows@[b] == before[b]);
                }
            }
            assert forall|a: int| 0 <= a < self.rows@.len() implies 0 < (#[trigger] self.rows@[a]).id < self.next_id by {
                if a < before.len() {
                    assert(self.rows@[a] == before[a]);
                }
            }
        }
        Ok(id)
    }

    /// Whether an entry with id `id` exists.
    pub open spec fn has_id(self, id: i32) -> bool {
        exists|j: int| 0 <= j < self.rows@.len() && (#[trigger] self.rows@[j]).id == id
    }
}

/// The kind record of a streamable kind.
pub open spec fn streamable_marker(kind: StreamableKind) -> MediaKind {
    match kind {
        StreamableKind::Movie => MediaKind::Movie,
        StreamableKind::Episode => MediaKind::Episode,
    }
}

/// The kind record of a static kind.
pub open spec fn static_marker(kind: StaticKind) -> MediaKind {
    match kind {
        StaticKind::TvShow => MediaKind::TvShow,
    }
}

impl InsertableMedia {
    /// Records the entry `id` as streamable and, unless `manual_insert` says the
    /// caller records its kind itself, as a `kind`; returns `id`. The entry must
    /// exist (`NotFound` otherwise).
    pub fn into_streamable(
        &self,
        table: &mut MediaTable,
        id: i32,
        kind: StreamableKind,
        manual_insert: Option<()>,
    ) -> (r: Result<i32, DatabaseError>)
        requires
            old(table).wf(),
        ensures
            final(table).wf(),
            !old(table).has_id(id) ==> r == Err::<i32, DatabaseError>(DatabaseError::NotFound)
                && *final(table) == *old(table),
            old(table).has_id(id) ==> {
                &&& r == Ok::<i32, DatabaseError>(id)
                &&& final(table).rows == old(table).rows
                &&& final(table).libraries == old(table).libraries
                &&& final(table).next_id == old(table).next_id
                &&& manual_insert is Some ==> final(table).markers@ == old(table).markers@.push(
                    (id, MediaKind::Streamable),
                )
                &&& manual_insert is None ==> final(table).markers@ == old(table).markers@.push(
                    (id, MediaKind::Streamable),
                ).push((id, streamable_marker(kind)))
            },
    {
        if table.find_id(id).is_none() {
            return Err(DatabaseError::NotFound);
        }
        table.markers.push((id, MediaKind::Streamable));
        match manual_insert {
            Some(_) => Ok(id),
            None => {
                let marker = match kind {
                    StreamableKind::Movie => MediaKind::Movie,
                    StreamableKind::Episode => MediaKind::Episode,
                };
                table.markers.push((id, marker));
                Ok(id)
            },
        }
    }

    /// Records the entry `id` as a `kind` that cannot be streamed; returns `id`.
    /// The entry must exist (`NotFound` otherwise).
    pub fn into_static(&self, table: &mut MediaTable, id: i32, kind: StaticKind) -> (r: Result<i32, DatabaseError>)
        requires
            old(table).wf(),
        ensures
            final(table).wf(),
            !old(table).has_id(id) ==> r == Err::<i32, DatabaseError>(DatabaseError::NotFound)
                && *final(table) == *old(table),
            old(table).has_id(id) ==> {
                &&& r == Ok::<i32, DatabaseError>(id)
                &&& final(table).rows == old(table).rows
                &&& final(table).libraries == old(table).libraries
                &&& final(table).next_id == old(table).next_id
                &&& final(table).markers@ == old(table).markers@.push((id, static_marker(kind)))
            },
    {
        if table.find_id(id).is_none() {
            return Err(DatabaseError::NotFound);
        }
        let marker = match kind {
            StaticKind::TvShow => MediaKind::TvShow,
        };
        table.markers.push((id, marker));
        Ok(id)
    }
}

/// A copy of `m`, field for field.
fn copy_media(m: &Media) -> (r: Media)
    ensures
        r == *m,
{
    Media {
        id: m.id,
        library_id: m.library_id,
        name: m.name.clone(),
        description: copy_text(&m.description),
        rating: m.rating,
        year: m.year,
        added: copy_text(&m.added),
        poster_path: copy_text(&m.poster_path),
        backdrop_path: copy_text(&m.backdrop_path),
        media_type: m.media_type,
    }
}

impl InsertableMedia {
    /// What insert-or-get of `self` does, as a relation between the tables
    /// before (`old`) and after (`new`) and its result `r`.
    pub open spec fn insert_effect(self, old: MediaTable, new: MediaTable, r: Result<i32, DatabaseError>) -> bool {
        if !old.has_library(self.library_id) {
            r == Err::<i32, DatabaseError>(DatabaseError::NotFound) && new == old
        } else if old.has_named(self.name@) {
            &&& new == old
            &&& r matches Ok(id) && exists|i: int|
                0 <= i < old.rows@.len() && (#[trigger] old.rows@[i]).name@ == self.name@
                    && old.rows@[i].id == id
        } else if old.next_id == i32::MAX {
            r == Err::<i32, DatabaseError>(DatabaseError::IdOverflow) && new == old
        } else {
            &&& r == Ok::<i32, DatabaseError>(old.next_id)
            &&& new.rows@ == old.rows@.push(media_from(self, old.next_id))
            &&& new.next_id == old.next_id + 1
            &&& new.libraries == old.libraries
            &&& new.markers == old.markers
        }
    }

    /// Insert-or-get: the id of an existing entry with the same name, or else the
    /// id of a new entry for `self`. The library must exist (`NotFound` otherwise).
    pub fn insert(&self, table: &mut MediaTable) -> (r: Result<i32, DatabaseError>)
        requires
            old(table).wf(),
        ensures
            final(table).wf(),
            self.insert_effect(*old(table), *final(table), r),
    {
        if !table.library_exists(self.library_id) {
            return Err(DatabaseError::NotFound);
        }
        match table.find_named(&self.name) {
            Some(i) => Ok(table.rows[i].id),
            None => table.append(self),
        }
    }

    /// Inserts a new entry for `self` without looking for one with the same name.
    /// The library must exist (`NotFound` otherwise).
    pub fn insert_blind(&self, table: &mut MediaTable) -> (r: Result<i32, DatabaseError>)
        requires
            old(table).wf(),
        ensures
            final(table).wf(),
            !old(table).has_library(self.library_id) ==> r == Err::<i32, DatabaseError>(
                DatabaseError::NotFound,
            ) && *final(table) == *old(table),
            old(table).has_library(self.library_id) && old(table).next_id == i32::MAX ==> r == Err::<
                i32,
                DatabaseError,
            >(DatabaseError::IdOverflow) && *final(table) == *old(table),
            old(table).has_library(self.library_id) && old(table).next_id < i32::MAX ==> r == Ok::<
                i32,
                DatabaseError,
            >(old(table).next_id) && final(table).rows@ == old(table).rows@.push(
                media_from(*self, old(table).next_id),
            ) && final(table).next_id == old(table).next_id + 1 && final(table).libraries == old(
                table,
            ).libraries && final(table).markers == old(table).markers,
    {
        if !table.library_exists(self.library_id) {
            return Err(DatabaseError::NotFound);
        }
        table.append(self)
    }
}

impl Media {
    /// The entry with id `req_id`, or `NotFound`.
    pub fn get(table: &MediaTable, req_id: i32) -> (r: Result<Media, DatabaseError>)
        ensures
            r.is_err() <==> forall|j: int| 0 <= j < table.rows@.len() ==> (#[trigger] table.rows@[j]).id != req_id,
            r.is_err() ==> r == Err::<Media, DatabaseError>(DatabaseError::NotFound),
            r matches Ok(m) ==> m.id == req_id && table.rows@.contains(m),
    {
        match table.find_id(req_id) {
            None => Err(DatabaseError::NotFound),
            Some(i) => {
                let m = copy_media(&table.rows[i]);
                assert(table.rows@[i as int] == m);
                Ok(m)
            },
        }
    }

    /// The first entry of library `library` named `name`, or `NotFound`.
    pub fn get_by_name_and_lib_id(table: &MediaTable, library: i32, name: &str) -> (r: Result<Media, DatabaseError>)
        ensures
            r.is_err() <==> forall|j: int|
                0 <= j < table.rows@.len() ==> !((#[trigger] table.rows@[j]).library_id == library
                    && table.rows@[j].name@ == name@),
            r.is_err() ==> r == Err::<Media, DatabaseError>(DatabaseError::NotFound),
            r matches Ok(m) ==> m.library_id == library && m.name@ == name@ && table.rows@.contains(m),
    {
        let key: String = name.to_owned();
        let mut i: usize = 0;
        while i < table.rows.len()
            invariant
                0 <= i <= table.rows@.len(),
                key@ == name@,
                forall|j: int|
                    0 <= j < i ==> !((#[trigger] table.rows@[j]).library_id == library
                        && table.rows@[j].name@ == name@),
            decreases table.rows@.len() - i,
        {
            let row = &table.rows[i];
            if row.library_id == library && row.name == key {
                let m = copy_media(row);
                assert(table.rows@[i as int] == m);
                return Ok(m);
            }
            i = i + 1;
        }
        Err(DatabaseError::NotFound)
    }

    /// The entries of library `library` that are not episodes, in table order.
    pub fn get_all(table: &MediaTable, library: i32) -> (r: Vec<Media>)
        ensures
            r@ == table.rows@.filter(|m: Media| m.library_id == library && m.media_type != Some(MediaType::Episode)),
    {
        let ghost pred = |m: Media| m.library_id == library && m.media_type != Some(MediaType::Episode);
        let mut out: Vec<Media> = Vec::new();
        let mut i: usize = 0;
        while i < table.rows.len()
            invariant
                0 <= i <= table.rows@.len(),
                pred == (|m: Media| m.library_id == library && m.media_type != Some(MediaType::Episode)),
                out@ == table.rows@.subrange(0, i as int).filter(pred),
            decreases table.rows@.len() - i,
        {
            let ghost prefix = table.rows@.subrange(0, i as int);
            assert(table.rows@.subrange(0, i + 1) =~= prefix.push(table.rows@[i as int]));
            proof { prefix.lemma_filter_push(table.rows@[i as int], pred); }
            let row = &table.rows[i];
            let episode = match row.media_type {
                Some(MediaType::Episode) => true,
                _ => false,
            };
            if row.library_id == library && !episode {
                out.push(copy_media(row));
            }
            i = i + 1;
        }
        assert(table.rows@.subrange(0, table.rows@.len() as int) =~= table.rows@);
        out
    }
    /// Deletes the entry `id_to_del`; the number of entries deleted (0 or 1).
    pub fn delete(table: &mut MediaTable, id_to_del: i32) -> (r: Result<usize, DatabaseError>)
        requires
            old(table).wf(),
        ensures
            final(table).wf(),
            final(table).libraries == old(table).libraries,
            final(table).markers == old(table).markers,
            final(table).next_id == old(table).next_id,
            (forall|j: int| 0 <= j < old(table).rows@.len() ==> (#[trigger] old(table).rows@[j]).id != id_to_del)
                ==> r == Ok::<usize, DatabaseError>(0) && final(table).rows@ == old(table).rows@,
            (exists|j: int| 0 <= j < old(table).rows@.len() && (#[trigger] old(table).rows@[j]).id == id_to_del)
                ==> r == Ok::<usize, DatabaseError>(1) && exists|j: int|
                0 <= j < old(table).rows@.len() && (#[trigger] old(table).rows@[j]).id == id_to_del
                    && final(table).rows@ == old(table).rows@.remove(j),
    {
        match table.find_id(id_to_del) {
            None => Ok(0),
            Some(i) => {
                let ghost o = table.rows@;
                let _ = table.rows.remove(i);
                proof {
                    let n = table.rows@;
                    assert(n == o.remove(i as int));
                    assert forall|a: int, b: int| 0 <= a < b < n.len() implies (#[trigger] n[a]).id != (#[trigger] n[b]).id by {
                        let oa = if a < i { a } else { a + 1 };
                        let ob = if b < i { b } else { b + 1 };
                        assert(n[a] == o[oa]);
                        assert(n[b] == o[ob]);
                    }
                    assert forall|a: int| 0 <= a < n.len() implies 0 < (#[trigger] n[a]).id < table.next_id by {
                        let oa = if a < i { a } else { a + 1 };
                        assert(n[a] == o[oa]);
                    }
                }
                Ok(1)
            },
        }
    }

    /// Deletes every entry of library `lib_id`; the number of entries deleted.
    pub fn delete_by_lib_id(table: &mut MediaTable, lib_id: i32) -> (r: Result<usize, DatabaseError>)
        requires
            old(table).wf(),
        ensures
            final(table).wf(),
            final(table).libraries == old(table).libraries,
            final(table).markers == old(table).markers,
            final(table).next_id == old(table).next_id,
            final(table).rows@ == old(table).rows@.filter(|m: Media| m.library_id != lib_id),
            r == Ok::<usize, DatabaseError>((old(table).rows@.len() - final(table).rows@.len()) as usize),
    {
        let ghost pred = |m: Media| m.library_id != lib_id;
        let ghost o = table.rows@;
        let mut kept: Vec<Media> = Vec::new();
        let mut i: usize = 0;
        while i < table.rows.len()
            invariant
                0 <= i <= table.rows@.len(),
                table.rows@ == o,
                pred == (|m: Media| m.library_id != lib_id),
                kept@ == o.subrange(0, i as int).filter(pred),
                old(table).wf(),
                forall|a: int| 0 <= a < kept@.len() ==> exists|k: int| 0 <= k < i && #[trigger] kept@[a] == o[k],
                forall|a: int, b: int| 0 <= a < b < kept@.len() ==> (#[trigger] kept@[a]).id != (#[trigger] kept@[b]).id,
            decreases table.rows@.len() - i,
        {
            let ghost prefix = o.subrange(0, i as int);
            assert(o.subrange(0, i + 1) =~= prefix.push(o[i as int]));
            proof { prefix.lemma_filter_push(o[i as int], pred); }
            if table.rows[i].library_id != lib_id {
                let ghost before = kept@;
                kept.push(copy_media(&table.rows[i]));
                proof {
                    assert forall|a: int| 0 <= a < kept@.len() implies exists|k: int| 0 <= k < i + 1 && #[trigger] kept@[a] == o[k] by {
                        if a < before.len() {
                            assert(kept@[a] == before[a]);
                        } else {
                            assert(kept@[a] == o[i as int]);
                        }
                    }
                    assert forall|a: int, b: int| 0 <= a < b < kept@.len() implies (#[trigger] kept@[a]).id != (#[trigger] kept@[b]).id by {
                        assert(kept@[a] == before[a]);
                        if b == before.len() {
                            let k = choose|k: int| 0 <= k < i && #[trigger] before[a] == o[k];
                            assert(o[k].id != o[i as int].id);
                        } else {
                            assert(kept@[b] == before[b]);
                        }
                    }
                }
            }
            i = i + 1;
        }
        assert(o.subrange(0, o.len() as int) =~= o);
        proof {
            o.lemma_filter_len(pred);
            assert forall|a: int| 0 <= a < kept@.len() implies 0 < (#[trigger] kept@[a]).id < table.next_id by {
                let k = choose|k: int| 0 <= k < o.len() && #[trigger] kept@[a] == o[k];
                assert(o[k] == old(table).rows@[k]);
            }
        }
        let removed: usize = table.rows.len() - kept.len();
        table.rows = kept;
        Ok(removed)
    }
}

impl UpdateMedia {
    /// Applies the changes to the entry `_id`; the number of entries changed (0 or 1).
    pub fn update(&self, table: &mut MediaTable, _id: i32) -> (r: Result<usize, DatabaseError>)
        requires
            old(table).wf(),
        ensures
            final(table).wf(),
            final(table).libraries == old(table).libraries,
            final(table).markers == old(table).markers,
            final(table).next_id == old(table).next_id,
            (forall|j: int| 0 <= j < old(table).rows@.len() ==> (#[trigger] old(table).rows@[j]).id != _id)
                ==> r == Ok::<usize, DatabaseError>(0) && final(table).rows@ == old(table).rows@,
            (exists|j: int| 0 <= j < old(table).rows@.len() && (#[trigger] old(table).rows@[j]).id == _id)
                ==> r == Ok::<usize, DatabaseError>(1) && exists|j: int|
                0 <= j < old(table).rows@.len() && (#[trigger] old(table).rows@[j]).id == _id
                    && final(table).rows@ == old(table).rows@.update(j, updated(old(table).rows@[j], *self)),
    {
        match table.find_id(_id) {
            None => Ok(0),
            Some(i) => {
                let m = copy_media(&table.rows[i]);
                let name = match &self.name {
                    Some(n) => n.clone(),
                    None => m.name,
                };
                let description = if self.description.is_some() { copy_text(&self.description) } else { m.description };
                let rating = if self.rating.is_some() { self.rating } else { m.rating };
                let year = if self.year.is_some() { self.year } else { m.year };
                let added = if self.added.is_some() { copy_text(&self.added) } else { m.added };
                let poster_path = if self.poster_path.is_some() { copy_text(&self.poster_path) } else { m.poster_path };
                let backdrop_path = if self.backdrop_path.is_some() { copy_text(&self.backdrop_path) } else { m.backdrop_path };
                let media_type = if self.media_type.is_some() { self.media_type } else { m.media_type };
                let row = Media {
                    id: m.id,
                    library_id: m.library_id,
                    name,
                    description,
                    rating,
                    year,
                    added,
                    poster_path,
                    backdrop_path,
                    media_type,
                };
                let ghost o = table.rows@;
                table.rows.set(i, row);
                proof {
                    let n = table.rows@;
                    assert(n == o.update(i as int, updated(o[i as int], *self)));
                    assert forall|a: int, b: int| 0 <= a < b < n.len() implies (#[trigger] n[a]).id != (#[trigger] n[b]).id by {
                        assert(n[a].id == o[a].id);
                        assert(n[b].id == o[b].id);
                    }
                    assert forall|a: int| 0 <= a < n.len() implies 0 < (#[trigger] n[a]).id < table.next_id by {
                        assert(n[a].id == o[a].id);
                    }
                }
                Ok(1)
            },
        }
    }
}

/// With no element meeting `pred`, filtering keeps nothing.
proof fn lemma_filter_none<A>(s: Seq<A>, pred: spec_fn(A) -> bool)
    requires
        forall|i: int| 0 <= i < s.len() ==> !pred(#[trigger] s[i]),
    ensures
        s.filter(pred).len() == 0,
    decreases s.len(),
{
    reveal(Seq::filter);
    if s.len() > 0 {
        let rest = s.drop_last();
        assert forall|i: int| 0 <= i < rest.len() implies !pred(#[trigger] rest[i]) by {
            assert(rest[i] == s[i]);
        }
        lemma_filter_none(rest, pred);
        assert(!pred(s[s.len() - 1]));
    }
}

/// After the first caller, every later insert-or-get of `m` finds the entry
/// the first one made and changes nothing.
proof fn lemma_later_calls_stable(m: InsertableMedia, tables: Seq<MediaTable>, results: Seq<Result<i32, DatabaseError>>, k: int)
    requires
        tables.len() == results.len() + 1,
        1 <= k <= results.len(),
        tables[1].has_library(m.library_id),
        tables[1].has_named(m.name@),
        forall|i: int|
            0 <= i < tables[1].rows@.len() && (#[trigger] tables[1].rows@[i]).name@ == m.name@
                ==> i == tables[1].rows@.len() - 1,
        forall|j: int| 0 <= j < results.len() ==> m.insert_effect(#[trigger] tables[j], tables[j + 1], results[j]),
    ensures
        tables[k] == tables[1],
        forall|j: int| 1 <= j < k ==> #[trigger] results[j] == Ok::<i32, DatabaseError>(tables[1].rows@.last().id),
    decreases k,
{
    if k > 1 {
        lemma_later_calls_stable(m, tables, results, k - 1);
        assert(m.insert_effect(tables[k - 1], tables[k], results[k - 1]));
        let i = choose|i: int|
            0 <= i < tables[1].rows@.len() && (#[trigger] tables[1].rows@[i]).name@ == m.name@
                && tables[1].rows@[i].id == results[k - 1]->Ok_0;
        assert(i == tables[1].rows@.len() - 1);
    }
}

/// Insert-or-get converges: when `n` callers insert the same entry, one after the
/// other as the single writer orders them, into a table holding no entry of that
/// name, all of them receive the same id, and exactly one entry of that name is
/// left (given a free id for the first insertion).
pub proof fn lemma_insert_or_get_converges(
    m: InsertableMedia,
    tables: Seq<MediaTable>,
    results: Seq<Result<i32, DatabaseError>>,
)
    requires
        results.len() >= 1,
        tables.len() == results.len() + 1,
        tables[0].wf(),
        tables[0].has_library(m.library_id),
        !tables[0].has_named(m.name@),
        tables[0].next_id < i32::MAX,
        forall|j: int| 0 <= j < results.len() ==> m.insert_effect(#[trigger] tables[j], tables[j + 1], results[j]),
    ensures
        results[0] == Ok::<i32, DatabaseError>(tables[0].next_id),
        forall|j: int| 0 <= j < results.len() ==> #[trigger] results[j] == results[0],
        tables.last().named(m.name@).len() == 1,
{
    assert(m.insert_effect(tables[0], tables[1], results[0]));
    let t0 = tables[0];
    let t1 = tables[1];
    let last = t1.rows@.len() - 1;
    assert(t1.rows@[last] == media_from(m, t0.next_id));
    assert forall|i: int| 0 <= i < t1.rows@.len() && (#[trigger] t1.rows@[i]).name@ == m.name@ implies i == last by {
        if i < last {
            assert(t1.rows@[i] == t0.rows@[i]);
        }
    }
    lemma_later_calls_stable(m, tables, results, results.len() as int);
    let pred = |x: Media| x.name@ == m.name@;
    assert forall|i: int| 0 <= i < t0.rows@.len() implies !pred(#[trigger] t0.rows@[i]) by {}
    lemma_filter_none(t0.rows@, pred);
    t0.rows@.lemma_filter_push(media_from(m, t0.next_id), pred);
    assert(t1.named(m.name@) == t0.rows@.filter(pred).push(media_from(m, t0.next_id)));
    assert(tables.last() == tables[results.len() as int]);
}

} // verus!
