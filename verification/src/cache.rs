//! The store of thumbnails, one for each player seen so far.

use vstd::prelude::*;
use vstd::string::*;
use crate::error::Error;
use crate::picture::{thumbnail, thumbnail_of, Picture, PictureView};
use crate::uid::{lemma_key_reads_back, Uid, UidView};

verus! {

/// One stored thumbnail and the player it belongs to.
#[derive(Debug)]
pub struct Entry {
    pub uid: Uid,
    pub image: Vec<u8>,
}

/// Whether some entry is kept under a key.
pub open spec fn held(entries: Seq<Entry>, key: UidView) -> bool {
    exists|i: int| 0 <= i < entries.len() && #[trigger] entries[i].uid@ == key
}

/// The place of an entry that is kept under a key.
pub open spec fn place(entries: Seq<Entry>, key: UidView) -> int {
    choose|i: int| 0 <= i < entries.len() && #[trigger] entries[i].uid@ == key
}

/// Whether no two entries share a key.
pub open spec fn distinct_keys(entries: Seq<Entry>) -> bool {
    forall|i: int, j: int|
        0 <= i < j < entries.len() ==> #[trigger] entries[i].uid@ != #[trigger] entries[j].uid@
}

/// The mapping that a list of entries with distinct keys stands for.
pub open spec fn mapping(entries: Seq<Entry>) -> Map<UidView, Seq<u8>> {
    Map::new(|key: UidView| held(entries, key), |key: UidView| entries[place(entries, key)].image@)
}

/// In a list with distinct keys, each entry is what the mapping holds under
/// its key.
pub proof fn lemma_entry_is_mapped(entries: Seq<Entry>, i: int)
    requires
        distinct_keys(entries),
        0 <= i < entries.len(),
    ensures
        mapping(entries).contains_key(entries[i].uid@),
        mapping(entries)[entries[i].uid@] == entries[i].image@,
        place(entries, entries[i].uid@) == i,
{
    let key = entries[i].uid@;
    assert(held(entries, key));
    let p = place(entries, key);
    assert(0 <= p < entries.len() && entries[p].uid@ == key);
    if p < i {
        assert(entries[p].uid@ != entries[i].uid@);
    } else if i < p {
        assert(entries[i].uid@ != entries[p].uid@);
    }
}

/// The thumbnails kept for the players seen so far. A thumbnail that was
/// stored stays as it is: nothing expires, and nothing is fetched again.
#[derive(Debug)]
pub struct Cache {
    entries: Vec<Entry>,
}

impl View for Cache {
    type V = Map<UidView, Seq<u8>>;

    closed spec fn view(&self) -> Map<UidView, Seq<u8>> {
        mapping(self.entries@)
    }
}

impl Default for Cache {
    fn default() -> (res: Cache)
        ensures
            res@ == Map::<UidView, Seq<u8>>::empty(),
    {
        Cache::new()
    }
}

impl Cache {
    #[verifier::type_invariant]
    spec fn inv(self) -> bool {
        distinct_keys(self.entries@)
    }

    /// A store that holds nothing yet.
    pub fn new() -> (res: Cache)
        ensures
            res@ == Map::<UidView, Seq<u8>>::empty(),
    {
        let res = Cache { entries: Vec::new() };
        assert(res@ =~= Map::<UidView, Seq<u8>>::empty());
        res
    }

    /// Where the entry of a player is, if there is one.
    fn find(&self, uid: &Uid) -> (res: Option<usize>)
        ensures
            match res {
                Some(i) => i < self.entries@.len() && self.entries@[i as int].uid@ == uid@,
                None => !held(self.entries@, uid@),
            },
    {
        let mut i: usize = 0;
        while i < self.entries.len()
            invariant
                0 <= i <= self.entries@.len(),
                forall|j: int| 0 <= j < i ==> (#[trigger] self.entries@[j]).uid@ != uid@,
            decreases self.entries@.len() - i,
        {
            if self.entries[i].uid == *uid {
                return Some(i);
            }
            i = i + 1;
        }
        None
    }

    /// The thumbnail kept for a player, if there is one.
    pub fn get(&self, uid: &Uid) -> (res: Option<&Vec<u8>>)
        ensures
            match res {
                Some(image) => self@.contains_key(uid@) && self@[uid@] == image@,
                None => !self@.contains_key(uid@),
            },
    {
        proof {
            use_type_invariant(self);
        }
        match self.find(uid) {
            Some(i) => {
                proof {
                    lemma_entry_is_mapped(self.entries@, i as int);
                }
                Some(&self.entries[i].image)
            },
            None => None,
        }
    }

    /// Whether a thumbnail is kept for a player.
    pub fn contains(&self, uid: &Uid) -> (res: bool)
        ensures
            res == self@.contains_key(uid@),
    {
        self.find(uid).is_some()
    }

    /// Keeps a thumbnail for a player, in place of the one that was kept
    /// for them before, if any.
    fn insert(&mut self, uid: Uid, image: Vec<u8>)
        ensures
            final(self)@ == old(self)@.insert(uid@, image@),
    {
        proof {
            use_type_invariant(&*self);
        }
        let ghost before = self.entries@;
        let found = self.find(&uid);
        let mut taken = Cache { entries: Vec::new() };
        std::mem::swap(self, &mut taken);
        let mut entries = taken.entries;
        match found {
            Some(i) => {
                entries.set(i, Entry { uid, image });
                proof {
                    lemma_replaced(before, entries@, i as int);
                }
            },
            None => {
                entries.push(Entry { uid, image });
                proof {
                    lemma_appended(before, entries@);
                }
            },
        }
        *self = Cache { entries };
    }

    /// Looks a player up. A thumbnail that is kept is handed out as it is,
    /// and nothing is to be fetched; only for a player without one does the
    /// caller get the address of the metadata to ask for.
    pub fn get_or_fetch(&self, base: &str, uid: &Uid) -> (res: Lookup)
        ensures
            res@ == lookup(self@, base@, uid@),
    {
        match self.get(uid) {
            Some(image) => {
                let copy = image.clone();
                assert(copy@ =~= image@);
                Lookup::Cached(copy)
            },
            None => Lookup::Fetch(metadata_url(base, uid)),
        }
    }

    /// Keeps the thumbnail of a freshly resolved picture for a player and
    /// hands it out. For a player who already has a thumbnail, that one
    /// stays and is handed out instead. The zoom factor is taken and has no
    /// effect yet: every thumbnail has the base size.
    pub fn store(&mut self, uid: Uid, picture: &Picture, _zoom: u8) -> (res: Result<Vec<u8>, Error>)
        ensures
            final(self)@ == stored(old(self)@, uid@, picture@),
            match served(old(self)@, uid@, picture@) {
                Some(image) => res matches Ok(bytes) && bytes@ == image,
                None => res matches Err(e) && e is Image,
            },
    {
        match self.get(&uid) {
            Some(image) => {
                let copy = image.clone();
                assert(copy@ =~= image@);
                return Ok(copy);
            },
            None => {},
        }
        let image = thumbnail(picture)?;
        let copy = image.clone();
        assert(copy@ =~= image@);
        self.insert(uid, image);
        Ok(copy)
    }

    /// The entries in the order in which they are kept.
    pub closed spec fn listing(&self) -> Seq<Entry> {
        self.entries@
    }

    /// Writes the store out as a list of stored keys and thumbnails, one
    /// entry for each player. Read back, the list gives the store again.
    pub fn to_entries(&self) -> (res: Vec<(String, Vec<u8>)>)
        ensures
            pairs(res@) == written(self.listing()),
            distinct_keys(self.listing()),
            self@ == mapping(self.listing()),
            read(pairs(res@)) == self@,
            distinct_texts(pairs(res@)),
    {
        proof {
            use_type_invariant(self);
        }
        let mut res: Vec<(String, Vec<u8>)> = Vec::new();
        let mut i: usize = 0;
        while i < self.entries.len()
            invariant
                0 <= i <= self.entries@.len(),
                res@.len() == i,
                forall|j: int|
                    0 <= j < i ==> (#[trigger] res@[j]).0@ == self.entries@[j].uid@.key()
                        && res@[j].1@ == self.entries@[j].image@,
            decreases self.entries@.len() - i,
        {
            let key = self.entries[i].uid.to_key();
            let image = self.entries[i].image.clone();
            assert(image@ =~= self.entries@[i as int].image@);
            res.push((key, image));
            i = i + 1;
        }
        assert(pairs(res@) =~= written(self.entries@));
        proof {
            lemma_written_reads_back(self.entries@);
            lemma_written_keys_differ(self.entries@);
        }
        res
    }

    /// Reads a store back from a list of keys and thumbnails. Of two
    /// entries that are read as the same player the later one counts.
    pub fn from_entries(list: &Vec<(String, Vec<u8>)>) -> (res: Cache)
        ensures
            res@ == read(pairs(list@)),
    {
        let mut res = Cache::new();
        let mut i: usize = 0;
        while i < list.len()
            invariant
                0 <= i <= list@.len(),
                res@ == read(pairs(list@).subrange(0, i as int)),
            decreases list@.len() - i,
        {
            let uid = Uid::from_key(list[i].0.as_str());
            let image = list[i].1.clone();
            assert(image@ =~= list@[i as int].1@);
            proof {
                let longer = pairs(list@).subrange(0, i + 1);
                assert(longer.drop_last() =~= pairs(list@).subrange(0, i as int));
                assert(longer.last() == (list@[i as int].0@, list@[i as int].1@));
            }
            res.insert(uid, image);
            i = i + 1;
        }
        assert(pairs(list@).subrange(0, i as int) =~= pairs(list@));
        res
    }
}

/// What looking a player up gives.
#[derive(Debug)]
pub enum Lookup {
    /// The thumbnail that is kept for the player.
    Cached(Vec<u8>),
    /// Nothing is kept: the metadata at this address says where the avatar
    /// can be had.
    Fetch(String),
}

/// What a `Lookup` is, mathematically.
pub enum LookupView {
    Cached(Seq<u8>),
    Fetch(Seq<char>),
}

impl View for Lookup {
    type V = LookupView;

    open spec fn view(&self) -> LookupView {
        match self {
            Lookup::Cached(image) => LookupView::Cached(image@),
            Lookup::Fetch(url) => LookupView::Fetch(url@),
        }
    }
}

/// The address of the metadata of a player's avatar.
pub open spec fn metadata_address(base: Seq<char>, uid: UidView) -> Seq<char> {
    base + "/person/"@ + uid.text() + "/avatar.json"@
}

/// Makes the address of the metadata of a player's avatar.
pub fn metadata_url(base: &str, uid: &Uid) -> (res: String)
    ensures
        res@ == metadata_address(base@, uid@),
{
    let mut url = String::from_str(base);
    url.append("/person/");
    let key = uid.to_text();
    url.append(key.as_str());
    url.append("/avatar.json");
    url
}

/// What looking a player up gives, by what is kept.
pub open spec fn lookup(kept: Map<UidView, Seq<u8>>, base: Seq<char>, uid: UidView) -> LookupView {
    if kept.contains_key(uid) {
        LookupView::Cached(kept[uid])
    } else {
        LookupView::Fetch(metadata_address(base, uid))
    }
}

/// The thumbnail that is handed out when a resolved picture is stored for a
/// player: the one already kept for them, else the one made of the
/// picture; `None` where none is kept and none can be made.
pub open spec fn served(kept: Map<UidView, Seq<u8>>, uid: UidView, picture: PictureView) -> Option<
    Seq<u8>,
> {
    if kept.contains_key(uid) {
        Some(kept[uid])
    } else {
        thumbnail_of(picture)
    }
}

/// What is kept after a resolved picture was stored for a player: its
/// thumbnail is added where the player had none and one can be made, and
/// nothing changes otherwise.
pub open spec fn stored(kept: Map<UidView, Seq<u8>>, uid: UidView, picture: PictureView) -> Map<
    UidView,
    Seq<u8>,
> {
    if kept.contains_key(uid) {
        kept
    } else {
        match thumbnail_of(picture) {
            Some(image) => kept.insert(uid, image),
            None => kept,
        }
    }
}

/// A list of keys and thumbnails as the contracts see it.
pub open spec fn pairs(list: Seq<(String, Vec<u8>)>) -> Seq<(Seq<char>, Seq<u8>)> {
    Seq::new(list.len(), |i: int| (list[i].0@, list[i].1@))
}

/// The list that a list of entries is written out as: the stored key of
/// each player, which carries the variant, with the thumbnail.
pub open spec fn written(entries: Seq<Entry>) -> Seq<(Seq<char>, Seq<u8>)> {
    Seq::new(entries.len(), |i: int| (entries[i].uid@.key(), entries[i].image@))
}

/// The mapping that a written list is read as: each stored key is read
/// as an identifier, and a later entry replaces an earlier one for the same
/// player.
pub open spec fn read(list: Seq<(Seq<char>, Seq<u8>)>) -> Map<UidView, Seq<u8>>
    decreases list.len(),
{
    if list.len() == 0 {
        Map::empty()
    } else {
        read(list.drop_last()).insert(UidView::of_key(list.last().0), list.last().1)
    }
}

/// A player who has a thumbnail is served from the store: looking them up
/// hands out what is kept and names nothing to fetch.
pub proof fn lemma_kept_is_served(kept: Map<UidView, Seq<u8>>, base: Seq<char>, uid: UidView)
    requires
        kept.contains_key(uid),
    ensures
        lookup(kept, base, uid) == LookupView::Cached(kept[uid]),
        lookup(kept, base, uid) !is Fetch,
{
}

/// Storing never changes or drops a thumbnail that is kept, whoever it is
/// stored for.
pub proof fn lemma_kept_stays(
    kept: Map<UidView, Seq<u8>>,
    uid: UidView,
    picture: PictureView,
    other: UidView,
)
    requires
        kept.contains_key(other),
    ensures
        stored(kept, uid, picture).contains_key(other),
        stored(kept, uid, picture)[other] == kept[other],
{
}

/// Once storing has handed out a thumbnail for a player, looking them up
/// hands out the same bytes and names nothing to fetch.
pub proof fn lemma_stored_is_served(
    kept: Map<UidView, Seq<u8>>,
    base: Seq<char>,
    uid: UidView,
    picture: PictureView,
)
    requires
        served(kept, uid, picture) is Some,
    ensures
        lookup(stored(kept, uid, picture), base, uid) == LookupView::Cached(
            served(kept, uid, picture)->Some_0,
        ),
{
}

/// Writing a store out and reading the list back gives the same players,
/// each the same variant with the same value, with the same thumbnails,
/// byte for byte. This holds of every store.
pub proof fn lemma_written_reads_back(entries: Seq<Entry>)
    requires
        distinct_keys(entries),
    ensures
        read(written(entries)) == mapping(entries),
    decreases entries.len(),
{
    if entries.len() == 0 {
        assert(mapping(entries) =~= Map::<UidView, Seq<u8>>::empty());
    } else {
        let before = entries.drop_last();
        let last = entries.last();
        assert forall|i: int, j: int| 0 <= i < j < before.len() implies #[trigger] before[i].uid@
            != #[trigger] before[j].uid@ by {
            assert(entries[i].uid@ != entries[j].uid@);
        }
        lemma_written_reads_back(before);
        assert(written(entries).drop_last() =~= written(before));
        assert(written(entries).last() == (last.uid@.key(), last.image@));
        lemma_key_reads_back(last.uid@);
        if held(before, last.uid@) {
            let p = place(before, last.uid@);
            assert(entries[p].uid@ != entries[entries.len() - 1].uid@);
        }
        lemma_appended(before, entries);
    }
}

/// Putting a new entry in the place of one with the same key changes the
/// mapping at that key only.
proof fn lemma_replaced(before: Seq<Entry>, after: Seq<Entry>, i: int)
    requires
        distinct_keys(before),
        0 <= i < before.len(),
        after.len() == before.len(),
        after[i].uid@ == before[i].uid@,
        forall|j: int| 0 <= j < before.len() && j != i ==> after[j] == before[j],
    ensures
        distinct_keys(after),
        mapping(after) =~= mapping(before).insert(after[i].uid@, after[i].image@),
{
    assert forall|a: int, b: int| 0 <= a < b < after.len() implies #[trigger] after[a].uid@
        != #[trigger] after[b].uid@ by {
        assert(before[a].uid@ != before[b].uid@);
    }
    let key = after[i].uid@;
    let target = mapping(before).insert(key, after[i].image@);
    assert forall|k: UidView| mapping(after).contains_key(k) == target.contains_key(k) by {
        if held(after, k) {
            let p = place(after, k);
            assert(before[p].uid@ == k);
        }
        if held(before, k) {
            let p = place(before, k);
            assert(after[p].uid@ == k);
        }
        if k == key {
            assert(after[i].uid@ == k);
        }
    }
    assert forall|k: UidView| mapping(after).contains_key(k) implies mapping(after)[k]
        == target[k] by {
        let p = place(after, k);
        lemma_entry_is_mapped(after, p);
        if p != i {
            lemma_entry_is_mapped(before, p);
        }
    }
}

/// Adding an entry under a key that was not held yet adds that key to the
/// mapping and changes nothing else.
proof fn lemma_appended(before: Seq<Entry>, after: Seq<Entry>)
    requires
        distinct_keys(before),
        after.len() == before.len() + 1,
        forall|j: int| 0 <= j < before.len() ==> after[j] == before[j],
        !held(before, after[before.len() as int].uid@),
    ensures
        distinct_keys(after),
        mapping(after) =~= mapping(before).insert(after.last().uid@, after.last().image@),
{
    let n = before.len() as int;
    let key = after[n].uid@;
    assert forall|a: int, b: int| 0 <= a < b < after.len() implies #[trigger] after[a].uid@
        != #[trigger] after[b].uid@ by {
        if b < n {
            assert(before[a].uid@ != before[b].uid@);
        } else {
            assert(before[a].uid@ == after[a].uid@);
        }
    }
    let target = mapping(before).insert(key, after[n].image@);
    assert forall|k: UidView| mapping(after).contains_key(k) == target.contains_key(k) by {
        if held(after, k) {
            let p = place(after, k);
            if p < n {
                assert(before[p].uid@ == k);
            }
        }
        if held(before, k) {
            let p = place(before, k);
            assert(after[p].uid@ == k);
        }
        if k == key {
            assert(after[n].uid@ == k);
        }
    }
    assert forall|k: UidView| mapping(after).contains_key(k) implies mapping(after)[k]
        == target[k] by {
        let p = place(after, k);
        lemma_entry_is_mapped(after, p);
        if p < n {
            lemma_entry_is_mapped(before, p);
        }
    }
}

/// Whether no two entries of a written list are read as the same player.
pub open spec fn distinct_players(list: Seq<(Seq<char>, Seq<u8>)>) -> bool {
    forall|i: int, j: int|
        0 <= i < j < list.len() ==> UidView::of_key((#[trigger] list[i]).0) != UidView::of_key(
            (#[trigger] list[j]).0,
        )
}

/// Whether two written lists hold the same entries, in whatever order.
pub open spec fn same_entries(a: Seq<(Seq<char>, Seq<u8>)>, b: Seq<(Seq<char>, Seq<u8>)>) -> bool {
    &&& forall|i: int| 0 <= i < a.len() ==> b.contains(#[trigger] a[i])
    &&& forall|j: int| 0 <= j < b.len() ==> a.contains(#[trigger] b[j])
}

/// Whether no two entries of a written list have the same key.
pub open spec fn distinct_texts(list: Seq<(Seq<char>, Seq<u8>)>) -> bool {
    forall|i: int, j: int|
        0 <= i < j < list.len() ==> (#[trigger] list[i]).0 != (#[trigger] list[j]).0
}

/// A written list in which no two entries are read as the same player is
/// read as the mapping that holds exactly its entries.
pub proof fn lemma_read_holds_each(list: Seq<(Seq<char>, Seq<u8>)>)
    requires
        distinct_players(list),
    ensures
        forall|i: int|
            0 <= i < list.len() ==> read(list).contains_key(
                UidView::of_key((#[trigger] list[i]).0),
            ) && read(list)[UidView::of_key(list[i].0)] == list[i].1,
        forall|key: UidView| #[trigger]
            read(list).contains_key(key) ==> exists|i: int|
                0 <= i < list.len() && UidView::of_key((#[trigger] list[i]).0) == key,
    decreases list.len(),
{
    if list.len() > 0 {
        let front = list.drop_last();
        let n = list.len() - 1;
        assert forall|i: int, j: int| 0 <= i < j < front.len() implies UidView::of_key(
            (#[trigger] front[i]).0,
        ) != UidView::of_key((#[trigger] front[j]).0) by {
            assert(front[i] == list[i] && front[j] == list[j]);
        }
        lemma_read_holds_each(front);
        let last_key = UidView::of_key(list[n].0);
        assert forall|i: int| 0 <= i < list.len() implies read(list).contains_key(
            UidView::of_key((#[trigger] list[i]).0),
        ) && read(list)[UidView::of_key(list[i].0)] == list[i].1 by {
            if i < n {
                assert(front[i] == list[i]);
                assert(UidView::of_key(list[i].0) != UidView::of_key(list[n].0));
            }
        }
        assert forall|key: UidView| #[trigger] read(list).contains_key(key) implies exists|i: int|
            0 <= i < list.len() && UidView::of_key((#[trigger] list[i]).0) == key by {
            if key == last_key {
                assert(UidView::of_key(list[n].0) == key);
            } else {
                assert(read(front).contains_key(key));
                let i = choose|i: int|
                    0 <= i < front.len() && UidView::of_key((#[trigger] front[i]).0) == key;
                assert(front[i] == list[i]);
                assert(UidView::of_key(list[i].0) == key);
            }
        }
    }
}

/// The order of a written list does not matter to what it is read as, as
/// long as no two of its entries are read as the same player.
pub proof fn lemma_read_ignores_order(a: Seq<(Seq<char>, Seq<u8>)>, b: Seq<(Seq<char>, Seq<u8>)>)
    requires
        distinct_players(a),
        distinct_players(b),
        same_entries(a, b),
    ensures
        read(a) == read(b),
{
    lemma_read_holds_each(a);
    lemma_read_holds_each(b);
    assert forall|key: UidView| read(a).contains_key(key) implies read(b).contains_key(key)
        && read(b)[key] == read(a)[key] by {
        let i = choose|i: int| 0 <= i < a.len() && UidView::of_key((#[trigger] a[i]).0) == key;
        assert(b.contains(a[i]));
        let j = choose|j: int| 0 <= j < b.len() && b[j] == a[i];
        assert(UidView::of_key(b[j].0) == key);
    }
    assert forall|key: UidView| read(b).contains_key(key) implies read(a).contains_key(key) by {
        let j = choose|j: int| 0 <= j < b.len() && UidView::of_key((#[trigger] b[j]).0) == key;
        assert(a.contains(b[j]));
        let i = choose|i: int| 0 <= i < a.len() && a[i] == b[j];
        assert(UidView::of_key(a[i].0) == key);
    }
    assert(read(a) =~= read(b));
}

/// A store is written out with a different key for each player, and each
/// key is read back as its player.
pub proof fn lemma_written_keys_differ(entries: Seq<Entry>)
    requires
        distinct_keys(entries),
    ensures
        distinct_texts(written(entries)),
        distinct_players(written(entries)),
        forall|i: int|
            0 <= i < entries.len() ==> UidView::of_key((#[trigger] written(entries)[i]).0)
                == entries[i].uid@,
{
    let list = written(entries);
    assert forall|i: int| 0 <= i < entries.len() implies UidView::of_key((#[trigger] list[i]).0)
        == entries[i].uid@ by {
        lemma_key_reads_back(entries[i].uid@);
    }
    assert forall|i: int, j: int| 0 <= i < j < list.len() implies UidView::of_key(
        (#[trigger] list[i]).0,
    ) != UidView::of_key((#[trigger] list[j]).0) by {
        assert(entries[i].uid@ != entries[j].uid@);
    }
}

/// A store survives being saved and loaded: when the list that it is
/// written out as comes back with the same entries under distinct keys, in
/// whatever order, it is read as the same players with the same
/// thumbnails, byte for byte. This holds of every store.
pub proof fn lemma_store_survives_saving(entries: Seq<Entry>, loaded: Seq<(Seq<char>, Seq<u8>)>)
    requires
        distinct_keys(entries),
        same_entries(written(entries), loaded),
        distinct_texts(loaded),
    ensures
        read(loaded) == mapping(entries),
{
    let list = written(entries);
    lemma_written_keys_differ(entries);
    lemma_written_reads_back(entries);
    assert forall|i: int, j: int| 0 <= i < j < loaded.len() implies UidView::of_key(
        (#[trigger] loaded[i]).0,
    ) != UidView::of_key((#[trigger] loaded[j]).0) by {
        assert(list.contains(loaded[i]));
        assert(list.contains(loaded[j]));
        let p = choose|p: int| 0 <= p < list.len() && list[p] == loaded[i];
        let q = choose|q: int| 0 <= q < list.len() && list[q] == loaded[j];
        assert(loaded[i].0 != loaded[j].0);
        assert(p != q);
        assert(UidView::of_key(list[p].0) == entries[p].uid@);
        assert(UidView::of_key(list[q].0) == entries[q].uid@);
        if p < q {
            assert(entries[p].uid@ != entries[q].uid@);
        } else {
            assert(entries[q].uid@ != entries[p].uid@);
        }
    }
    lemma_read_ignores_order(list, loaded);
}

} // verus!
