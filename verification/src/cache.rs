//! The rendered pages that a document keeps.

use std::collections::VecDeque;

use vstd::prelude::*;

use crate::renderer::RenderKey;

verus! {

/// How many bytes the kept images may have together.
pub const CACHE_BYTES: u64 = 100_663_296;

/// How many pages are kept.
pub const CACHE_PAGES: usize = 64;

/// A rendered page: the image, by the number that it is known by, or the message that tells why
/// there is none.
pub struct CachedPage {
    pub key: RenderKey,
    pub result: Result<u64, String>,
}

/// What a rendered page is.
#[verifier::ext_equal]
pub struct PageEntry {
    pub key: RenderKey,
    pub result: Result<u64, Seq<char>>,
}

impl View for CachedPage {
    type V = PageEntry;

    open spec fn view(&self) -> PageEntry {
        PageEntry {
            key: self.key,
            result: match self.result {
                Ok(image) => Ok(image),
                Err(message) => Err(message@),
            },
        }
    }
}

impl PageEntry {
    /// The size of the image, in bytes.
    pub open spec fn byte_size(self) -> int {
        if self.result is Ok {
            self.key.width * self.key.height * 4
        } else {
            0
        }
    }

    /// The image, as a sequence of at most one.
    pub open spec fn images(self) -> Seq<u64> {
        match self.result {
            Ok(image) => seq![image],
            Err(_) => Seq::empty(),
        }
    }
}

impl CachedPage {
    /// The size of the image, in bytes.
    pub fn byte_size(&self) -> (size: u64)
        ensures
            size == self@.byte_size(),
            size <= 65_535 * 65_535 * 4,
    {
        if self.result.is_ok() {
            proof {
                lemma_size_bound(self@);
            }
            let width: u64 = self.key.width as u64;
            let height: u64 = self.key.height as u64;
            width * height * 4
        } else {
            0
        }
    }
}

proof fn lemma_size_bound(entry: PageEntry)
    ensures
        0 <= entry.key.width * entry.key.height <= 65_535 * 65_535,
        0 <= entry.byte_size() <= 65_535 * 65_535 * 4,
{
    let width = entry.key.width as int;
    let height = entry.key.height as int;
    assert(0 <= width * height <= 65_535 * 65_535) by (nonlinear_arith)
        requires
            0 <= width <= 65_535,
            0 <= height <= 65_535,
    ;
}

/// The sizes of all images together.
pub open spec fn total_size(entries: Seq<PageEntry>) -> int
    decreases entries.len(),
{
    if entries.len() == 0 {
        0
    } else {
        entries.first().byte_size() + total_size(entries.drop_first())
    }
}

/// All images, in order.
pub open spec fn all_images(entries: Seq<PageEntry>) -> Seq<u64>
    decreases entries.len(),
{
    if entries.len() == 0 {
        Seq::empty()
    } else {
        entries.first().images() + all_images(entries.drop_first())
    }
}

/// The place of the first entry with a key, or the number of entries where there is none.
pub open spec fn place_of(entries: Seq<PageEntry>, key: RenderKey) -> nat
    decreases entries.len(),
{
    if entries.len() == 0 || entries.first().key == key {
        0
    } else {
        1 + place_of(entries.drop_first(), key)
    }
}

/// Whether there is an entry with a key.
pub open spec fn has_key(entries: Seq<PageEntry>, key: RenderKey) -> bool {
    place_of(entries, key) < entries.len()
}

/// Whether the entries may all be kept.
pub open spec fn fits(entries: Seq<PageEntry>) -> bool {
    total_size(entries) <= CACHE_BYTES && entries.len() <= CACHE_PAGES
}

/// How many of the oldest entries have to go so that the others may be kept.
pub open spec fn surplus(entries: Seq<PageEntry>) -> nat
    decreases entries.len(),
{
    if entries.len() == 0 || fits(entries) {
        0
    } else {
        1 + surplus(entries.drop_first())
    }
}

/// The entries with those of a key taken out.
pub open spec fn without_page(entries: Seq<PageEntry>, key: RenderKey) -> Seq<PageEntry> {
    if has_key(entries, key) {
        entries.remove(place_of(entries, key) as int)
    } else {
        entries
    }
}

/// The images of the entry with a key, as a sequence of at most one.
pub open spec fn images_of_key(entries: Seq<PageEntry>, key: RenderKey) -> Seq<u64> {
    if has_key(entries, key) {
        entries[place_of(entries, key) as int].images()
    } else {
        Seq::empty()
    }
}

/// The entries after a page was added, before the oldest ones go.
pub open spec fn extended(entries: Seq<PageEntry>, page: PageEntry) -> Seq<PageEntry> {
    without_page(entries, page.key).push(page)
}

/// The entries after a page was added.
pub open spec fn cached(entries: Seq<PageEntry>, page: PageEntry) -> Seq<PageEntry> {
    extended(entries, page).skip(surplus(extended(entries, page)) as int)
}

/// The images that are given up when a page is added: that of the entry that the page replaces,
/// then those of the oldest entries.
pub open spec fn given_up(entries: Seq<PageEntry>, page: PageEntry) -> Seq<u64> {
    images_of_key(entries, page.key) + all_images(
        extended(entries, page).take(surplus(extended(entries, page)) as int),
    )
}

/// The entries after a page was looked up: one that is there becomes the latest.
pub open spec fn touched(entries: Seq<PageEntry>, key: RenderKey) -> Seq<PageEntry> {
    if has_key(entries, key) {
        without_page(entries, key).push(entries[place_of(entries, key) as int])
    } else {
        entries
    }
}

/// The image of the latest entry of a page, whatever its size, if that entry has one.
pub open spec fn latest_image(entries: Seq<PageEntry>, page: usize) -> Option<u64>
    decreases entries.len(),
{
    if entries.len() == 0 {
        None
    } else if entries.last().key.page == page {
        match entries.last().result {
            Ok(image) => Some(image),
            Err(_) => None,
        }
    } else {
        latest_image(entries.drop_last(), page)
    }
}

/// No two entries have the same key, and all of them may be kept.
pub open spec fn cache_wf(entries: Seq<PageEntry>) -> bool {
    &&& forall|i: int, j: int|
        0 <= i < j < entries.len() ==> (#[trigger] entries[i]).key != (#[trigger] entries[j]).key
    &&& fits(entries)
}

/// The views of pages.
pub open spec fn page_entries(pages: Seq<CachedPage>) -> Seq<PageEntry> {
    Seq::new(pages.len(), |i: int| pages[i]@)
}

/// The pages that a document keeps, the latest last.
pub struct PageCache {
    pages: VecDeque<CachedPage>,
    bytes: u64,
}

impl View for PageCache {
    type V = Seq<PageEntry>;

    closed spec fn view(&self) -> Seq<PageEntry> {
        page_entries(self.pages@)
    }
}

impl PageCache {
    /// The cache knows the size of what it keeps, keeps no page twice and keeps not too much.
    pub closed spec fn wf(self) -> bool {
        &&& self.bytes == total_size(self@)
        &&& cache_wf(self@)
    }

    /// A cache that keeps nothing.
    pub fn new() -> (cache: PageCache)
        ensures
            cache@ == Seq::<PageEntry>::empty(),
            cache.wf(),
    {
        let cache = PageCache { pages: VecDeque::new(), bytes: 0 };
        proof {
            assert(cache@ =~= Seq::empty());
        }
        cache
    }

    /// How many pages are kept.
    pub fn len(&self) -> (n: usize)
        ensures
            n == self@.len(),
    {
        self.pages.len()
    }

    /// The size of the images that are kept, in bytes.
    pub fn size(&self) -> (n: u64)
        requires
            self.wf(),
        ensures
            n == total_size(self@),
            n <= CACHE_BYTES,
    {
        self.bytes
    }

    /// The place of the entry with a key.
    fn position(&self, key: RenderKey) -> (place: usize)
        ensures
            place == place_of(self@, key),
            place <= self@.len(),
            place < self@.len() ==> self@[place as int].key == key,
    {
        let mut i: usize = 0;
        proof {
            assert(self@.skip(0) =~= self@);
        }
        while i < self.pages.len()
            invariant
                i <= self.pages@.len(),
                place_of(self@, key) == i + place_of(self@.skip(i as int), key),
            decreases self.pages@.len() - i,
        {
            proof {
                assert(self@.skip(i as int).first() == self.pages@[i as int]@);
                assert(self@.skip(i as int).drop_first() =~= self@.skip(i + 1));
            }
            if self.pages[i].key == key {
                return i;
            }
            i += 1;
        }
        i
    }

    /// Looks a page up. The answer is the image, or the message that tells why there is none, or
    /// nothing where the page is not kept.
    pub fn get(&mut self, key: RenderKey) -> (r: Option<Result<u64, String>>)
        requires
            old(self).wf(),
        ensures
            final(self)@ == touched(old(self)@, key),
            final(self).wf(),
            match r {
                None => !has_key(old(self)@, key),
                Some(result) => {
                    &&& has_key(old(self)@, key)
                    &&& old(self)@[place_of(old(self)@, key) as int] == (CachedPage {
                        key,
                        result,
                    })@
                },
            },
    {
        let place: usize = self.position(key);
        if place >= self.pages.len() {
            return None;
        }
        proof {
            lemma_touched(self@, key);
        }
        match self.pages.remove(place) {
            None => None,
            Some(page) => {
                let result = match &page.result {
                    Ok(image) => Ok(*image),
                    Err(message) => Err(message.clone()),
                };
                self.pages.push_back(page);
                proof {
                    assert(self@ =~= touched(old(self)@, key));
                }
                Some(result)
            },
        }
    }

    /// The image of the latest entry of a page, whatever its size, if that entry has one.
    pub fn latest(&self, page: usize) -> (image: Option<u64>)
        ensures
            image == latest_image(self@, page),
    {
        let mut n: usize = self.pages.len();
        proof {
            assert(self@.take(n as int) =~= self@);
        }
        while n > 0
            invariant
                n <= self.pages@.len(),
                latest_image(self@, page) == latest_image(self@.take(n as int), page),
            decreases n,
        {
            proof {
                assert(self@.take(n as int).last() == self.pages@[n - 1]@);
                assert(self@.take(n as int).drop_last() =~= self@.take(n - 1));
            }
            if self.pages[n - 1].key.page == page {
                return match &self.pages[n - 1].result {
                    Ok(image) => Some(*image),
                    Err(_) => None,
                };
            }
            n -= 1;
        }
        None
    }

    /// Removes the oldest entries until the others may be kept. The images of those that go are
    /// added to `dropped`.
    fn shrink(&mut self, dropped: &mut Vec<u64>)
        requires
            old(self).bytes == total_size(old(self)@),
        ensures
            final(self).bytes == total_size(final(self)@),
            final(self)@ == old(self)@.skip(surplus(old(self)@) as int),
            final(dropped)@ == old(dropped)@ + all_images(
                old(self)@.take(surplus(old(self)@) as int),
            ),
    {
        let ghost before = self@;
        let ghost mut gone: int = 0;
        proof {
            assert(before.skip(0) =~= before);
            assert(all_images(before.take(0)) =~= Seq::empty());
            lemma_surplus_bound(before);
        }
        while self.bytes > CACHE_BYTES || self.pages.len() > CACHE_PAGES
            invariant
                0 <= gone <= before.len(),
                self@ == before.skip(gone),
                self.bytes == total_size(self@),
                surplus(before) == gone + surplus(self@),
                dropped@ == old(dropped)@ + all_images(before.take(gone)),
            decreases before.len() - gone,
        {
            proof {
                assert(self@.len() > 0);
                lemma_total_is_positive(self@.drop_first());
                assert(self@.drop_first() =~= before.skip(gone + 1));
                assert(before.take(gone + 1) =~= before.take(gone).push(before[gone]));
                lemma_images_push(before.take(gone), before[gone]);
            }
            if let Some(page) = self.pages.pop_front() {
                proof {
                    assert(page@ == before[gone]);
                    assert(self@ =~= before.skip(gone + 1));
                }
                self.bytes = self.bytes - page.byte_size();
                if let Ok(image) = &page.result {
                    dropped.push(*image);
                    proof {
                        assert(page@.images() =~= seq![*image]);
                    }
                } else {
                    proof {
                        assert(page@.images() =~= Seq::empty());
                    }
                }
                proof {
                    assert(dropped@ =~= old(dropped)@ + all_images(before.take(gone + 1)));
                    gone = gone + 1;
                }
            }
        }
    }

    /// Keeps a page as the latest. Returns the images that are given up for it, in the order in
    /// which they go.
    pub fn put(&mut self, page: CachedPage) -> (dropped: Vec<u64>)
        requires
            old(self).wf(),
        ensures
            final(self)@ == cached(old(self)@, page@),
            final(self).wf(),
            dropped@ == given_up(old(self)@, page@),
    {
        let ghost before = self@;
        let mut dropped: Vec<u64> = Vec::new();
        let place: usize = self.position(page.key);
        proof {
            lemma_without_page(before, page.key);
            lemma_put(before, page@);
        }
        if place < self.pages.len() {
            if let Some(previous) = self.pages.remove(place) {
                proof {
                    assert(self@ =~= without_page(before, page.key));
                    lemma_total_is_positive(self@);
                }
                self.bytes = self.bytes - previous.byte_size();
                if let Ok(image) = &previous.result {
                    dropped.push(*image);
                }
            }
        }
        proof {
            assert(self@ =~= without_page(before, page.key));
            assert(dropped@ =~= images_of_key(before, page.key));
            lemma_total_push(self@, page@);
            lemma_total_is_positive(self@);
        }
        self.bytes = self.bytes + page.byte_size();
        self.pages.push_back(page);
        proof {
            assert(self@ =~= extended(before, page@));
        }
        self.shrink(&mut dropped);
        dropped
    }

    /// Gives up everything. Returns the images, in order.
    pub fn clear(&mut self) -> (dropped: Vec<u64>)
        ensures
            final(self)@ == Seq::<PageEntry>::empty(),
            final(self).wf(),
            dropped@ == all_images(old(self)@),
    {
        let ghost before = self@;
        let mut dropped: Vec<u64> = Vec::new();
        let mut i: usize = 0;
        proof {
            assert(all_images(before.take(0)) =~= Seq::empty());
        }
        while i < self.pages.len()
            invariant
                i <= self.pages@.len(),
                self@ == before,
                dropped@ == all_images(before.take(i as int)),
            decreases self.pages@.len() - i,
        {
            proof {
                assert(before.take(i + 1) =~= before.take(i as int).push(before[i as int]));
                lemma_images_push(before.take(i as int), before[i as int]);
                assert(before[i as int] == self.pages@[i as int]@);
            }
            let ghost so_far = dropped@;
            if let Ok(image) = &self.pages[i].result {
                dropped.push(*image);
                proof {
                    assert(before[i as int].images() =~= seq![*image]);
                }
            } else {
                proof {
                    assert(before[i as int].images() =~= Seq::empty());
                }
            }
            proof {
                assert(dropped@ =~= so_far + before[i as int].images());
            }
            i += 1;
        }
        proof {
            assert(before.take(i as int) =~= before);
        }
        self.pages.clear();
        self.bytes = 0;
        proof {
            assert(self@ =~= Seq::empty());
        }
        dropped
    }
}

proof fn lemma_total_is_positive(entries: Seq<PageEntry>)
    ensures
        total_size(entries) >= 0,
    decreases entries.len(),
{
    if entries.len() > 0 {
        lemma_size_bound(entries.first());
        lemma_total_is_positive(entries.drop_first());
    }
}

proof fn lemma_total_push(entries: Seq<PageEntry>, page: PageEntry)
    ensures
        total_size(entries.push(page)) == total_size(entries) + page.byte_size(),
    decreases entries.len(),
{
    if entries.len() == 0 {
        assert(entries.push(page).drop_first() =~= Seq::empty());
        assert(total_size(entries.push(page).drop_first()) == 0);
    } else {
        lemma_total_push(entries.drop_first(), page);
        assert(entries.push(page).drop_first() =~= entries.drop_first().push(page));
        assert(entries.push(page).first() == entries.first());
    }
}

proof fn lemma_total_remove(entries: Seq<PageEntry>, i: int)
    requires
        0 <= i < entries.len(),
    ensures
        total_size(entries.remove(i)) == total_size(entries) - entries[i].byte_size(),
    decreases entries.len(),
{
    if i == 0 {
        assert(entries.remove(0) =~= entries.drop_first());
    } else {
        lemma_total_remove(entries.drop_first(), i - 1);
        assert(entries.remove(i).drop_first() =~= entries.drop_first().remove(i - 1));
        assert(entries.remove(i).first() == entries.first());
    }
}

proof fn lemma_images_push(entries: Seq<PageEntry>, page: PageEntry)
    ensures
        all_images(entries.push(page)) == all_images(entries) + page.images(),
    decreases entries.len(),
{
    if entries.len() == 0 {
        assert(entries.push(page).drop_first() =~= Seq::empty());
        assert(all_images(entries.push(page).drop_first()) =~= Seq::empty());
        assert(all_images(entries.push(page)) =~= all_images(entries) + page.images());
    } else {
        lemma_images_push(entries.drop_first(), page);
        assert(entries.push(page).drop_first() =~= entries.drop_first().push(page));
        assert(entries.push(page).first() == entries.first());
        assert(all_images(entries.push(page)) =~= all_images(entries) + page.images());
    }
}

proof fn lemma_surplus_bound(entries: Seq<PageEntry>)
    ensures
        surplus(entries) <= entries.len(),
        fits(entries.skip(surplus(entries) as int)),
    decreases entries.len(),
{
    if entries.len() == 0 || fits(entries) {
        assert(entries.skip(0) =~= entries);
    } else {
        lemma_surplus_bound(entries.drop_first());
        assert(entries.drop_first().skip(surplus(entries.drop_first()) as int) =~= entries.skip(
            surplus(entries) as int,
        ));
    }
}

proof fn lemma_place(entries: Seq<PageEntry>, key: RenderKey)
    ensures
        place_of(entries, key) <= entries.len(),
        has_key(entries, key) ==> entries[place_of(entries, key) as int].key == key,
        forall|i: int|
            0 <= i < place_of(entries, key) && i < entries.len() ==> (#[trigger] entries[i]).key
                != key,
    decreases entries.len(),
{
    if entries.len() > 0 && entries.first().key != key {
        let rest = entries.drop_first();
        lemma_place(rest, key);
        assert forall|i: int|
            0 <= i < place_of(entries, key) && i < entries.len() implies (
        #[trigger] entries[i]).key != key by {
            if i > 0 {
                assert(rest[i - 1] == entries[i]);
            }
        }
        if has_key(entries, key) {
            assert(rest[place_of(rest, key) as int] == entries[place_of(entries, key) as int]);
        }
    }
}

proof fn lemma_without_page(entries: Seq<PageEntry>, key: RenderKey)
    requires
        cache_wf(entries),
    ensures
        total_size(without_page(entries, key)) == total_size(entries) - if has_key(entries, key) {
            entries[place_of(entries, key) as int].byte_size()
        } else {
            0
        },
        forall|i: int|
            0 <= i < without_page(entries, key).len() ==> (#[trigger] without_page(
                entries,
                key,
            )[i]).key != key,
        forall|i: int, j: int|
            0 <= i < j < without_page(entries, key).len() ==> (#[trigger] without_page(
                entries,
                key,
            )[i]).key != (#[trigger] without_page(entries, key)[j]).key,
{
    lemma_place(entries, key);
    if has_key(entries, key) {
        let place = place_of(entries, key) as int;
        lemma_total_remove(entries, place);
        let rest = without_page(entries, key);
        assert forall|i: int| 0 <= i < rest.len() implies (#[trigger] rest[i]).key != key by {
            if i < place {
                assert(rest[i] == entries[i]);
            } else {
                assert(rest[i] == entries[i + 1]);
                assert(entries[place].key != entries[i + 1].key);
            }
        }
        assert forall|i: int, j: int| 0 <= i < j < rest.len() implies (#[trigger] rest[i]).key
            != (#[trigger] rest[j]).key by {
            let a = if i < place {
                i
            } else {
                i + 1
            };
            let b = if j < place {
                j
            } else {
                j + 1
            };
            assert(rest[i] == entries[a]);
            assert(rest[j] == entries[b]);
        }
    }
}

proof fn lemma_put(entries: Seq<PageEntry>, page: PageEntry)
    requires
        cache_wf(entries),
    ensures
        cache_wf(cached(entries, page)),
{
    lemma_without_page(entries, page.key);
    let all = extended(entries, page);
    lemma_surplus_bound(all);
    let kept = cached(entries, page);
    let gone = surplus(all) as int;
    assert forall|i: int, j: int| 0 <= i < j < kept.len() implies (#[trigger] kept[i]).key != (
    #[trigger] kept[j]).key by {
        assert(kept[i] == all[i + gone]);
        assert(kept[j] == all[j + gone]);
        let rest = without_page(entries, page.key);
        assert(all[i + gone] == rest[i + gone]);
        if j + gone < rest.len() {
            assert(all[j + gone] == rest[j + gone]);
        }
    }
}

proof fn lemma_touched(entries: Seq<PageEntry>, key: RenderKey)
    requires
        cache_wf(entries),
    ensures
        cache_wf(touched(entries, key)),
        total_size(touched(entries, key)) == total_size(entries),
{
    lemma_without_page(entries, key);
    lemma_place(entries, key);
    if has_key(entries, key) {
        let rest = without_page(entries, key);
        let page = entries[place_of(entries, key) as int];
        lemma_total_push(rest, page);
        let all = touched(entries, key);
        assert forall|i: int, j: int| 0 <= i < j < all.len() implies (#[trigger] all[i]).key != (
        #[trigger] all[j]).key by {
            assert(all[i] == rest[i]);
            if j < rest.len() {
                assert(all[j] == rest[j]);
            }
        }
    }
}

/// Whatever pages come, the cache keeps no page twice and keeps not too much.
pub proof fn adding_keeps_the_limits(entries: Seq<PageEntry>, page: PageEntry)
    requires
        cache_wf(entries),
    ensures
        cache_wf(cached(entries, page)),
{
    lemma_put(entries, page);
}

/// Looking a page up loses nothing and keeps the limits.
pub proof fn looking_up_keeps_the_limits(entries: Seq<PageEntry>, key: RenderKey)
    requires
        cache_wf(entries),
    ensures
        cache_wf(touched(entries, key)),
        total_size(touched(entries, key)) == total_size(entries),
        touched(entries, key).len() == entries.len(),
{
    lemma_touched(entries, key);
    lemma_place(entries, key);
}

/// A page that was added, and that may be kept at all, is the latest entry.
pub proof fn added_page_is_kept(entries: Seq<PageEntry>, page: PageEntry)
    requires
        page.byte_size() <= CACHE_BYTES,
    ensures
        cached(entries, page).len() > 0,
        cached(entries, page).last() == page,
{
    let all = extended(entries, page);
    lemma_surplus_spares_last(all);
    lemma_surplus_bound(all);
}

proof fn lemma_surplus_spares_last(entries: Seq<PageEntry>)
    requires
        entries.len() > 0,
        entries.last().byte_size() <= CACHE_BYTES,
    ensures
        surplus(entries) < entries.len(),
    decreases entries.len(),
{
    if !fits(entries) {
        if entries.len() == 1 {
            assert(entries.drop_first() =~= Seq::empty());
            assert(total_size(entries.drop_first()) == 0);
            assert(false);
        } else {
            assert(entries.drop_first().last() == entries.last());
            lemma_surplus_spares_last(entries.drop_first());
        }
    }
}

/// A page that was added is found again.
pub proof fn added_page_is_found(entries: Seq<PageEntry>, page: PageEntry)
    requires
        cache_wf(entries),
        page.byte_size() <= CACHE_BYTES,
    ensures
        has_key(cached(entries, page), page.key),
        cached(entries, page)[place_of(cached(entries, page), page.key) as int] == page,
{
    added_page_is_kept(entries, page);
    lemma_put(entries, page);
    let kept = cached(entries, page);
    lemma_place(kept, page.key);
    let last = kept.len() - 1;
    assert(kept[last] == page);
    let place = place_of(kept, page.key) as int;
    if place < last {
        assert(kept[place].key != kept[last].key);
    }
}

/// The oldest entries go first: what is kept is the end of what was there.
pub proof fn oldest_entries_go_first(entries: Seq<PageEntry>, page: PageEntry)
    ensures
        cached(entries, page).is_suffix_of(extended(entries, page)),
        surplus(extended(entries, page)) > 0 ==> !fits(
            extended(entries, page).skip(surplus(extended(entries, page)) - 1),
        ),
{
    let all = extended(entries, page);
    lemma_surplus_bound(all);
    let gone = surplus(all) as int;
    assert(cached(entries, page) =~= all.subrange(
        all.len() - cached(entries, page).len(),
        all.len() as int,
    ));
    lemma_surplus_is_least(all);
}

proof fn lemma_surplus_is_least(entries: Seq<PageEntry>)
    ensures
        surplus(entries) > 0 ==> !fits(entries.skip(surplus(entries) - 1)),
    decreases entries.len(),
{
    if entries.len() > 0 && !fits(entries) {
        let rest = entries.drop_first();
        lemma_surplus_is_least(rest);
        lemma_surplus_bound(rest);
        if surplus(rest) == 0 {
            assert(entries.skip(0) =~= entries);
        } else {
            assert(rest.skip(surplus(rest) - 1) =~= entries.skip(surplus(entries) - 1));
        }
    }
}

proof fn lemma_images_concat(a: Seq<PageEntry>, b: Seq<PageEntry>)
    ensures
        all_images(a + b) == all_images(a) + all_images(b),
    decreases a.len(),
{
    if a.len() == 0 {
        assert(a + b =~= b);
        assert(all_images(a) + all_images(b) =~= all_images(b));
    } else {
        lemma_images_concat(a.drop_first(), b);
        assert((a + b).drop_first() =~= a.drop_first() + b);
        assert((a + b).first() == a.first());
        assert(all_images(a + b) =~= all_images(a) + all_images(b));
    }
}

proof fn lemma_images_without(entries: Seq<PageEntry>, key: RenderKey)
    ensures
        all_images(entries).to_multiset() == all_images(without_page(entries, key)).to_multiset().add(
            images_of_key(entries, key).to_multiset(),
        ),
{
    broadcast use vstd::seq_lib::group_to_multiset_ensures;

    lemma_place(entries, key);
    if has_key(entries, key) {
        let place = place_of(entries, key) as int;
        let front = entries.take(place);
        let page = entries[place];
        let back = entries.skip(place + 1);
        assert(entries =~= front.push(page) + back);
        assert(without_page(entries, key) =~= front + back);
        lemma_images_concat(front.push(page), back);
        lemma_images_push(front, page);
        lemma_images_concat(front, back);
        vstd::seq_lib::lemma_multiset_commutative(all_images(front) + page.images(), all_images(back));
        vstd::seq_lib::lemma_multiset_commutative(all_images(front), page.images());
        vstd::seq_lib::lemma_multiset_commutative(all_images(front), all_images(back));
        assert(all_images(entries).to_multiset() =~= all_images(
            without_page(entries, key),
        ).to_multiset().add(page.images().to_multiset()));
    } else {
        assert(Seq::<u64>::empty().to_multiset() =~= vstd::multiset::Multiset::empty());
        assert(all_images(entries).to_multiset() =~= all_images(entries).to_multiset().add(
            Seq::<u64>::empty().to_multiset(),
        ));
    }
}

/// No image is lost: those that were kept, with that of the page that was added, are those that are
/// kept afterwards together with those that are given up.
pub proof fn no_image_is_lost(entries: Seq<PageEntry>, page: PageEntry)
    ensures
        all_images(entries).to_multiset().add(page.images().to_multiset()) == all_images(
            cached(entries, page),
        ).to_multiset().add(given_up(entries, page).to_multiset()),
{
    let rest = without_page(entries, page.key);
    let all = extended(entries, page);
    let gone = surplus(all) as int;
    lemma_surplus_bound(all);
    lemma_images_without(entries, page.key);
    lemma_images_push(rest, page);
    assert(all =~= all.take(gone) + all.skip(gone));
    lemma_images_concat(all.take(gone), all.skip(gone));
    let replaced = images_of_key(entries, page.key);
    vstd::seq_lib::lemma_multiset_commutative(all_images(rest), page.images());
    vstd::seq_lib::lemma_multiset_commutative(
        all_images(all.take(gone)),
        all_images(all.skip(gone)),
    );
    vstd::seq_lib::lemma_multiset_commutative(replaced, all_images(all.take(gone)));
    let before = all_images(entries).to_multiset();
    let added = page.images().to_multiset();
    let kept = all_images(all.skip(gone)).to_multiset();
    let oldest = all_images(all.take(gone)).to_multiset();
    assert(all_images(rest).to_multiset().add(added) == oldest.add(kept));
    assert(before == all_images(rest).to_multiset().add(replaced.to_multiset()));
    assert(given_up(entries, page).to_multiset() == replaced.to_multiset().add(oldest));
    assert forall|image: u64| before.add(added).count(image) == kept.add(
        replaced.to_multiset().add(oldest),
    ).count(image) by {
        assert(all_images(rest).to_multiset().add(added).count(image) == oldest.add(kept).count(
            image,
        ));
        assert(before.count(image) == all_images(rest).to_multiset().add(
            replaced.to_multiset(),
        ).count(image));
    }
    assert(before.add(added) =~= kept.add(replaced.to_multiset().add(oldest)));
}

/// A page that is kept is found at its place, and a page that is not kept is not found.
pub proof fn kept_pages_are_found(entries: Seq<PageEntry>, key: RenderKey)
    requires
        forall|i: int, j: int|
            0 <= i < j < entries.len() ==> (#[trigger] entries[i]).key != (
            #[trigger] entries[j]).key,
    ensures
        forall|i: int|
            0 <= i < entries.len() && (#[trigger] entries[i]).key == key ==> has_key(entries, key)
                && place_of(entries, key) == i,
        (forall|i: int| 0 <= i < entries.len() ==> (#[trigger] entries[i]).key != key)
            ==> !has_key(entries, key),
{
    lemma_place(entries, key);
    assert forall|i: int| 0 <= i < entries.len() && (#[trigger] entries[i]).key == key implies has_key(
        entries,
        key,
    ) && place_of(entries, key) == i by {
        let place = place_of(entries, key) as int;
        if place < i {
            assert(entries[place].key != entries[i].key);
        }
    }
}

/// A page that is looked up becomes the latest one, and the others keep their order. Nothing changes
/// where it is not kept.
pub proof fn looking_up_makes_a_page_the_latest(entries: Seq<PageEntry>, key: RenderKey)
    requires
        forall|i: int, j: int|
            0 <= i < j < entries.len() ==> (#[trigger] entries[i]).key != (
            #[trigger] entries[j]).key,
    ensures
        forall|i: int|
            0 <= i < entries.len() && (#[trigger] entries[i]).key == key ==> touched(entries, key)
                == entries.remove(i).push(entries[i]),
        (forall|i: int| 0 <= i < entries.len() ==> (#[trigger] entries[i]).key != key) ==> touched(
            entries,
            key,
        ) == entries,
{
    kept_pages_are_found(entries, key);
}

/// The sizes of images add up, and an image takes four bytes for each of its pixels. Where there is
/// only a message, it takes none.
pub proof fn sizes_add_up(a: Seq<PageEntry>, b: Seq<PageEntry>, entry: PageEntry)
    ensures
        total_size(a + b) == total_size(a) + total_size(b),
        total_size(seq![entry]) == if entry.result is Ok {
            4 * (entry.key.width * entry.key.height)
        } else {
            0
        },
        total_size(Seq::empty()) == 0,
    decreases b.len(),
{
    if b.len() == 0 {
        assert(a + b =~= a);
    } else {
        sizes_add_up(a, b.drop_last(), entry);
        assert(a + b =~= (a + b.drop_last()).push(b.last()));
        lemma_total_push(a + b.drop_last(), b.last());
        assert(b =~= b.drop_last().push(b.last()));
        lemma_total_push(b.drop_last(), b.last());
    }
    let one = seq![entry];
    assert(one.drop_first() =~= Seq::empty());
    assert(total_size(one.drop_first()) == 0);
}

/// No more than 64 pages are kept, and their images have no more than 96 MiB together.
pub proof fn the_cache_is_bounded(entries: Seq<PageEntry>, page: PageEntry)
    ensures
        cached(entries, page).len() <= 64,
        total_size(cached(entries, page)) <= 96 * 1024 * 1024,
{
    lemma_surplus_bound(extended(entries, page));
}

/// A page for which there is room becomes the latest one. It takes the place of the one with its key,
/// whose image is given up, and no other one goes.
pub proof fn pages_are_added_where_there_is_room(
    entries: Seq<PageEntry>,
    page: PageEntry,
    place: int,
)
    requires
        cache_wf(entries),
        0 <= place <= entries.len(),
        forall|i: int| 0 <= i < entries.len() && i != place ==> (#[trigger] entries[i]).key != page.key,
        place < entries.len() ==> entries[place].key == page.key,
        place == entries.len() ==> entries.len() < 64,
        total_size(entries) + 4 * (page.key.width * page.key.height) <= 96 * 1024 * 1024,
    ensures
        place == entries.len() ==> cached(entries, page) == entries.push(page) && given_up(
            entries,
            page,
        ) == Seq::<u64>::empty(),
        place < entries.len() ==> cached(entries, page) == entries.remove(place).push(page)
            && given_up(entries, page) == entries[place].images(),
{
    kept_pages_are_found(entries, page.key);
    let rest = without_page(entries, page.key);
    lemma_without_page(entries, page.key);
    lemma_total_push(rest, page);
    lemma_size_bound(page);
    if place < entries.len() {
        assert(has_key(entries, entries[place].key));
        lemma_size_bound(entries[place]);
        assert(rest == entries.remove(place));
    } else {
        assert(rest == entries);
    }
    let all = extended(entries, page);
    assert(all == rest.push(page));
    assert(all.len() <= 64);
    assert(fits(all));
    assert(surplus(all) == 0);
    assert(all.skip(0) =~= all);
    assert(all.take(0) =~= Seq::empty());
    assert(all_images(all.take(0)) =~= Seq::empty());
    assert(given_up(entries, page) =~= images_of_key(entries, page.key));
}

/// The image that is shown meanwhile is that of the latest entry of the page.
pub proof fn latest_image_is_that_of_the_latest_entry(
    entries: Seq<PageEntry>,
    page: usize,
    place: int,
)
    requires
        0 <= place < entries.len(),
        entries[place].key.page == page,
        forall|i: int| place < i < entries.len() ==> (#[trigger] entries[i]).key.page != page,
    ensures
        entries[place].result is Ok ==> latest_image(entries, page) == Some(
            entries[place].result->Ok_0,
        ),
        entries[place].result is Err ==> latest_image(entries, page) is None,
    decreases entries.len(),
{
    if place < entries.len() - 1 {
        let front = entries.drop_last();
        assert(entries[entries.len() - 1].key.page != page);
        assert forall|i: int| place < i < front.len() implies (#[trigger] front[i]).key.page
            != page by {
            assert(front[i] == entries[i]);
        }
        latest_image_is_that_of_the_latest_entry(front, page, place);
    }
}

/// There is no image to show meanwhile where no entry is of the page.
pub proof fn pages_that_are_not_kept_have_no_image(entries: Seq<PageEntry>, page: usize)
    requires
        forall|i: int| 0 <= i < entries.len() ==> (#[trigger] entries[i]).key.page != page,
    ensures
        latest_image(entries, page) is None,
    decreases entries.len(),
{
    if entries.len() > 0 {
        let front = entries.drop_last();
        assert(entries[entries.len() - 1].key.page != page);
        assert forall|i: int| 0 <= i < front.len() implies (#[trigger] front[i]).key.page
            != page by {
            assert(front[i] == entries[i]);
        }
        pages_that_are_not_kept_have_no_image(front, page);
    }
}

/// The test for an entry that has an image.
pub open spec fn has_image() -> spec_fn(PageEntry) -> bool {
    |entry: PageEntry| entry.result is Ok
}

/// The images of entries are those of all entries that have one, in order.
pub proof fn every_image_is_given_up(entries: Seq<PageEntry>)
    ensures
        all_images(entries).len() == entries.filter(has_image()).len(),
        forall|k: int|
            0 <= k < all_images(entries).len() ==> entries.filter(has_image())[k].result == Ok::<
                u64,
                Seq<char>,
            >(#[trigger] all_images(entries)[k]),
    decreases entries.len(),
{
    reveal(Seq::filter);
    if entries.len() > 0 {
        let front = entries.drop_last();
        let last = entries.last();
        every_image_is_given_up(front);
        assert(front.push(last) =~= entries);
        lemma_images_push(front, last);
        let kept = front.filter(has_image());
        assert forall|k: int| 0 <= k < all_images(entries).len() implies entries.filter(
            has_image(),
        )[k].result == Ok::<u64, Seq<char>>(#[trigger] all_images(entries)[k]) by {
            if k < kept.len() {
                assert(all_images(entries)[k] == all_images(front)[k]);
            }
        }
    }
}

/// Whether the first `gone` of all entries have to go, and no more, so that the others may be kept:
/// these are `kept`, and the images of those that go are `images`.
pub open spec fn makes_room(
    all: Seq<PageEntry>,
    gone: int,
    kept: Seq<PageEntry>,
    images: Seq<u64>,
) -> bool {
    &&& 0 <= gone <= all.len()
    &&& kept == all.skip(gone)
    &&& kept.len() <= 64
    &&& total_size(kept) <= 96 * 1024 * 1024
    &&& images == all_images(all.take(gone))
    &&& gone > 0 ==> all.skip(gone - 1).len() > 64 || total_size(all.skip(gone - 1)) > 96 * 1024
        * 1024
}

/// A page that is added becomes the latest. Where there is no room for it the oldest ones go, no more
/// than have to, and their images are given up, the oldest first.
pub proof fn oldest_pages_make_room(entries: Seq<PageEntry>, page: PageEntry)
    requires
        forall|i: int| 0 <= i < entries.len() ==> (#[trigger] entries[i]).key != page.key,
    ensures
        exists|gone: int| #[trigger]
            makes_room(
                entries.push(page),
                gone,
                cached(entries, page),
                given_up(entries, page),
            ),
{
    lemma_place(entries, page.key);
    assert(!has_key(entries, page.key)) by {
        if has_key(entries, page.key) {
            assert(entries[place_of(entries, page.key) as int].key == page.key);
        }
    }
    let all = entries.push(page);
    let gone = surplus(all) as int;
    lemma_surplus_bound(all);
    lemma_surplus_is_least(all);
    assert(given_up(entries, page) =~= all_images(all.take(gone)));
    assert(makes_room(all, gone, cached(entries, page), given_up(entries, page)));
}

/// A page takes the place of the one with its key, whose image is given up before all others.
pub proof fn replaced_images_are_given_up_first(
    entries: Seq<PageEntry>,
    page: PageEntry,
    place: int,
)
    requires
        cache_wf(entries),
        0 <= place < entries.len(),
        entries[place].key == page.key,
    ensures
        cached(entries, page) == cached(entries.remove(place), page),
        entries[place].result matches Ok(image) ==> given_up(entries, page) == seq![image]
            + given_up(entries.remove(place), page),
        entries[place].result is Err ==> given_up(entries, page) == given_up(
            entries.remove(place),
            page,
        ),
{
    kept_pages_are_found(entries, page.key);
    assert(has_key(entries, entries[place].key));
    lemma_without_page(entries, page.key);
    let rest = entries.remove(place);
    assert(rest == without_page(entries, page.key));
    lemma_place(rest, page.key);
    assert(!has_key(rest, page.key)) by {
        if has_key(rest, page.key) {
            assert(rest[place_of(rest, page.key) as int].key == page.key);
        }
    }
    let all = extended(entries, page);
    assert(extended(rest, page) == all);
    let oldest = all_images(all.take(surplus(all) as int));
    assert(given_up(rest, page) =~= oldest);
    assert(given_up(entries, page) =~= entries[place].images() + oldest);
    if entries[place].result is Err {
        assert(entries[place].images() + oldest =~= oldest);
    }
}

/// What is known of a page that is kept is its key, and its image or the message.
pub proof fn entries_tell_all_of_a_page(page: CachedPage)
    ensures
        page@.key == page.key,
        page.result matches Ok(image) ==> page@.result == Ok::<u64, Seq<char>>(image),
        page.result matches Err(message) ==> page@.result == Err::<u64, Seq<char>>(message@),
{
}

} // verus!
