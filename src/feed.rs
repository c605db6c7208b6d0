use vstd::prelude::*;
use vstd::string::StringSliceAdditionalSpecFns;

use crate::comic_image::ComicImage;

verus! {

/// The account a collection follows.
pub enum UserId {
    Id(u64),
    ScreenName(String),
}

/// One image of a post, stored compactly.
pub struct Comic {
    pub url: String,
    pub image: ComicImage,
}

impl Comic {
    pub fn new(url: String, image: ComicImage) -> (r: Self)
        ensures
            r.url == url,
            r.image == image,
    {
        Comic { url, image }
    }

    pub fn image(&self) -> (r: &ComicImage)
        ensures
            *r == self.image,
    {
        &self.image
    }
}

/// The images of one post, with the post's id and time (seconds since the
/// Unix epoch).
pub struct ComicStrip {
    pub id: u64,
    pub comics: Vec<Comic>,
    pub created_at: i64,
}

/// A post of a timeline as handed over by whoever read it: its id and time,
/// whether it carried media, and the images from that media that were
/// fetched and passed the filter, in order.
pub struct TimelineEntry {
    pub id: u64,
    pub created_at: i64,
    pub has_media: bool,
    pub comics: Vec<Comic>,
}

/// The strips gathered from one account, newest first, at most `max_amount`.
pub struct UserComicCollection {
    pub user_id: UserId,
    pub comic_strips: Vec<ComicStrip>,
    /// Newest post id the timeline reported so far.
    pub max_id: Option<u64>,
    pub max_amount: usize,
}

/// Strips kept per account unless said otherwise.
pub const DEFAULT_MAX_AMOUNT: usize = 100;

/// The bytes of `/video/`.
pub open spec fn video_marker() -> Seq<u8> {
    seq![47u8, 118u8, 105u8, 100u8, 101u8, 111u8, 47u8]
}

/// `part` occurs in `whole` at position `i`.
pub open spec fn occurs_at(whole: Seq<u8>, part: Seq<u8>, i: int) -> bool {
    0 <= i && i + part.len() <= whole.len() && whole.subrange(i, i + part.len()) == part
}

/// `part` occurs somewhere in `whole`.
pub open spec fn has_infix(whole: Seq<u8>, part: Seq<u8>) -> bool {
    exists|i: int| occurs_at(whole, part, i)
}

/// Whether a media entry is taken as a comic: a photo whose expanded
/// address has no `/video/` segment (video thumbnails come as photos).
pub fn is_comic_media(is_photo: bool, expanded_url: &str) -> (r: bool)
    ensures
        r == (is_photo && !has_infix(expanded_url.spec_bytes(), video_marker())),
{
    let bytes = expanded_url.as_bytes();
    let marker: [u8; 7] = [47, 118, 105, 100, 101, 111, 47];
    assert(marker@ =~= video_marker());
    let n = bytes.len();
    let mut found = false;
    let mut i: usize = 0;
    while 7 <= n && i <= n - 7 && !found
        invariant
            bytes@ == expanded_url.spec_bytes(),
            n == bytes@.len(),
            marker@ == video_marker(),
            found ==> has_infix(bytes@, video_marker()),
            i <= n,
            !found ==> forall|k: int| 0 <= k < i ==> !occurs_at(bytes@, video_marker(), k),
        decreases n - i, if found { 0int } else { 1int },
    {
        let mut j: usize = 0;
        while j < 7 && bytes[i + j] == marker[j]
            invariant
                i + 7 <= n,
                n == bytes@.len(),
                marker@ == video_marker(),
                j <= 7,
                forall|k: int| 0 <= k < j ==> bytes@[i + k] == marker@[k],
            decreases 7 - j,
        {
            j = j + 1;
        }
        if j == 7 {
            assert(bytes@.subrange(i as int, i + 7) =~= video_marker());
            assert(occurs_at(bytes@, video_marker(), i as int));
            found = true;
        } else {
            assert(bytes@.subrange(i as int, i + 7)[j as int] != video_marker()[j as int]);
            i = i + 1;
        }
    }
    if !found {
        assert forall|k: int| !occurs_at(bytes@, video_marker(), k) by {
            if 0 <= k && k + 7 <= n {
                assert(k < i);
                assert(!occurs_at(bytes@, video_marker(), k));
            }
        }
    }
    is_photo && !found
}

/// Ids of `strips`, in order.
pub open spec fn strip_ids(strips: Seq<ComicStrip>) -> Seq<u64> {
    Seq::new(strips.len(), |i: int| strips[i].id)
}

/// `sorted` with `s` put before the first strip that is not newer than it.
pub open spec fn insert_by_age(sorted: Seq<ComicStrip>, s: ComicStrip) -> Seq<ComicStrip>
    decreases sorted.len(),
{
    if sorted.len() == 0 {
        seq![s]
    } else if sorted[0].created_at <= s.created_at {
        seq![s] + sorted
    } else {
        seq![sorted[0]] + insert_by_age(sorted.drop_first(), s)
    }
}

/// `strips` ordered newest first; of strips with the same time, the one
/// that came later comes first.
pub open spec fn newest_first(strips: Seq<ComicStrip>) -> Seq<ComicStrip>
    decreases strips.len(),
{
    if strips.len() == 0 {
        seq![]
    } else {
        insert_by_age(newest_first(strips.drop_last()), strips.last())
    }
}

/// The `max_amount` newest of `strips`, newest first.
pub open spec fn retained(strips: Seq<ComicStrip>, max_amount: usize) -> Seq<ComicStrip> {
    let sorted = newest_first(strips);
    if max_amount < sorted.len() {
        sorted.take(max_amount as int)
    } else {
        sorted
    }
}

proof fn lemma_insert_by_age(sorted: Seq<ComicStrip>, s: ComicStrip, p: int)
    requires
        0 <= p <= sorted.len(),
        forall|j: int| 0 <= j < p ==> #[trigger] sorted[j].created_at > s.created_at,
        p == sorted.len() || sorted[p].created_at <= s.created_at,
    ensures
        insert_by_age(sorted, s) == sorted.insert(p, s),
    decreases sorted.len(),
{
    if sorted.len() == 0 {
        assert(sorted.insert(p, s) =~= seq![s]);
    } else if p == 0 {
        assert(sorted.insert(p, s) =~= seq![s] + sorted);
    } else {
        let rest = sorted.drop_first();
        assert forall|j: int| 0 <= j < p - 1 implies #[trigger] rest[j].created_at > s.created_at by {
            assert(rest[j] == sorted[j + 1]);
        }
        lemma_insert_by_age(rest, s, p - 1);
        assert(sorted.insert(p, s) =~= seq![sorted[0]] + rest.insert(p - 1, s));
    }
}

proof fn lemma_insert_by_age_len(sorted: Seq<ComicStrip>, s: ComicStrip)
    ensures
        insert_by_age(sorted, s).len() == sorted.len() + 1,
    decreases sorted.len(),
{
    if sorted.len() > 0 && sorted[0].created_at > s.created_at {
        lemma_insert_by_age_len(sorted.drop_first(), s);
    }
}

/// Whether `id` is one of `ids`.
fn contains_id(ids: &Vec<u64>, id: u64) -> (r: bool)
    ensures
        r == ids@.contains(id),
{
    let mut i: usize = 0;
    while i < ids.len()
        invariant
            i <= ids@.len(),
            forall|k: int| 0 <= k < i ==> ids@[k] != id,
        decreases ids@.len() - i,
    {
        if ids[i] == id {
            assert(ids@[i as int] == id);
            return true;
        }
        i = i + 1;
    }
    false
}

/// The strips in newest-first order, at most `max_amount` of them.
pub fn apply_collection_constraints(collection: UserComicCollection) -> (r: UserComicCollection)
    ensures
        r.user_id == collection.user_id,
        r.max_id == collection.max_id,
        r.max_amount == collection.max_amount,
        r.comic_strips@ == retained(collection.comic_strips@, collection.max_amount),
{
    let UserComicCollection { user_id, comic_strips, max_id, max_amount } = collection;
    let ghost unsorted = comic_strips@;
    let mut input = comic_strips;
    let mut sorted: Vec<ComicStrip> = Vec::new();
    let mut k: usize = 0;
    while input.len() > 0
        invariant
            k <= unsorted.len(),
            input@ == unsorted.subrange(k as int, unsorted.len() as int),
            sorted@ == newest_first(unsorted.take(k as int)),
            sorted@.len() == k,
        decreases input@.len(),
    {
        let s = input.remove(0);
        let mut p: usize = 0;
        while p < sorted.len() && sorted[p].created_at > s.created_at
            invariant
                p <= sorted@.len(),
                forall|j: int| 0 <= j < p ==> #[trigger] sorted@[j].created_at > s.created_at,
            decreases sorted@.len() - p,
        {
            p = p + 1;
        }
        proof {
            lemma_insert_by_age(sorted@, s, p as int);
            lemma_insert_by_age_len(sorted@, s);
            assert(unsorted.take(k + 1).drop_last() =~= unsorted.take(k as int));
            assert(unsorted.take(k + 1).last() == s);
        }
        sorted.insert(p, s);
        k = sorted.len();
    }
    assert(unsorted.take(k as int) =~= unsorted);
    sorted.truncate(max_amount);
    UserComicCollection { user_id, comic_strips: sorted, max_id, max_amount }
}

impl UserComicCollection {
    pub fn new(user_id: UserId) -> (r: Self)
        ensures
            r.user_id == user_id,
            r.comic_strips@.len() == 0,
            r.max_id is None,
            r.max_amount == DEFAULT_MAX_AMOUNT,
    {
        Self::new_with_max_amount(user_id, DEFAULT_MAX_AMOUNT)
    }

    pub fn new_with_max_amount(user_id: UserId, max_amount: usize) -> (r: Self)
        ensures
            r.user_id == user_id,
            r.comic_strips@.len() == 0,
            r.max_id is None,
            r.max_amount == max_amount,
    {
        UserComicCollection { user_id, max_amount, max_id: None, comic_strips: Vec::new() }
    }

    /// Ids of the strips held, in order.
    pub fn comic_ids(&self) -> (r: Vec<u64>)
        ensures
            r@ == strip_ids(self.comic_strips@),
    {
        let mut ids: Vec<u64> = Vec::new();
        let mut i: usize = 0;
        while i < self.comic_strips.len()
            invariant
                i <= self.comic_strips@.len(),
                ids@ == strip_ids(self.comic_strips@).take(i as int),
            decreases self.comic_strips@.len() - i,
        {
            ids.push(self.comic_strips[i].id);
            assert(ids@ =~= strip_ids(self.comic_strips@).take(i + 1));
            i = i + 1;
        }
        assert(ids@ =~= strip_ids(self.comic_strips@));
        ids
    }

    /// Whether a post with this id was read before; its media need not be
    /// fetched again.
    pub fn knows(&self, id: u64) -> (r: bool)
        ensures
            r == strip_ids(self.comic_strips@).contains(id),
    {
        let ids = self.comic_ids();
        contains_id(&ids, id)
    }
}

/// The strips and seen post ids after reading `feed` in order: a post
/// already seen is skipped; a post with media is marked seen, and becomes a
/// strip where some of its images were kept.
pub open spec fn merged(strips: Seq<ComicStrip>, ids: Seq<u64>, feed: Seq<TimelineEntry>) -> (Seq<ComicStrip>, Seq<u64>)
    decreases feed.len(),
{
    if feed.len() == 0 {
        (strips, ids)
    } else {
        let (s, i) = merged(strips, ids, feed.drop_last());
        let t = feed.last();
        if i.contains(t.id) || !t.has_media {
            (s, i)
        } else if t.comics@.len() > 0 {
            (s.push(ComicStrip { id: t.id, comics: t.comics, created_at: t.created_at }), i.push(t.id))
        } else {
            (s, i.push(t.id))
        }
    }
}

/// The newest post id known after a read: the one the timeline reported,
/// else the one known before.
pub open spec fn next_max_id(reported: Option<u64>, previous: Option<u64>) -> Option<u64> {
    match reported {
        Some(id) => Some(id),
        None => previous,
    }
}

/// Folds a read of the account's timeline into the collection: new posts
/// with kept images become strips, then the newest `max_amount` strips are
/// kept, newest first.
pub fn refresh_user_comic_collection(
    collection: UserComicCollection,
    feed: Vec<TimelineEntry>,
    reported_max_id: Option<u64>,
) -> (r: UserComicCollection)
    ensures
        r.user_id == collection.user_id,
        r.max_amount == collection.max_amount,
        r.max_id == next_max_id(reported_max_id, collection.max_id),
        r.comic_strips@ == retained(
            merged(collection.comic_strips@, strip_ids(collection.comic_strips@), feed@).0,
            collection.max_amount,
        ),
{
    let mut ids = collection.comic_ids();
    let UserComicCollection { user_id, comic_strips, max_id, max_amount } = collection;
    let ghost strips0 = comic_strips@;
    let ghost ids0 = ids@;
    let ghost entries = feed@;
    let mut strips = comic_strips;
    let mut input = feed;
    let total = input.len();
    let mut k: usize = 0;
    while input.len() > 0
        invariant
            total == entries.len(),
            k <= entries.len(),
            input@ == entries.subrange(k as int, entries.len() as int),
            (strips@, ids@) == merged(strips0, ids0, entries.take(k as int)),
        decreases input@.len(),
    {
        let t = input.remove(0);
        proof {
            assert(entries.take(k + 1).drop_last() =~= entries.take(k as int));
            assert(entries.take(k + 1).last() == t);
        }
        if !contains_id(&ids, t.id) && t.has_media {
            let TimelineEntry { id, created_at, has_media, comics } = t;
            if comics.len() > 0 {
                strips.push(ComicStrip { id, comics, created_at });
            }
            ids.push(id);
        }
        k = k + 1;
    }
    assert(entries.take(k as int) =~= entries);
    let new_max_id = match reported_max_id {
        Some(id) => Some(id),
        None => max_id,
    };
    apply_collection_constraints(UserComicCollection { user_id, max_id: new_max_id, max_amount, comic_strips: strips })
}

} // verus!
