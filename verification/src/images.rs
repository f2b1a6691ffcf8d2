//! Image records and the rule that parts the stale ones from the rest.

use crate::date::{created_at_of, deserialize, DateWindow, TimestampError, Window};
use crate::size::{
    deserialize_size, lemma_total_bytes_fails_on, total_bytes, SizeFailure, SizeParseError,
};
use crate::text::{chars_of, contains_text, find_char, first_index, is_substring};
use vstd::prelude::*;

verus! {

/// One image of the inventory.
#[derive(Debug)]
pub struct ImageRecord {
    /// The identifier by which the image is removed.
    pub id: String,
    /// The names the image goes by; none for a dangling image.
    pub repository_tags: Vec<String>,
    /// When the image was made, in seconds since the epoch.
    pub created_at: i64,
    /// The size of the image, such as `72.9MB`.
    pub size: String,
}

/// An [`ImageRecord`] with its texts as sequences of characters.
pub struct Image {
    pub id: Seq<char>,
    pub repository_tags: Seq<Seq<char>>,
    pub created_at: int,
    pub size: Seq<char>,
}

impl View for ImageRecord {
    type V = Image;

    open spec fn view(&self) -> Image {
        Image {
            id: self.id@,
            repository_tags: self.repository_tags.deep_view(),
            created_at: self.created_at as int,
            size: self.size@,
        }
    }
}

impl DeepView for ImageRecord {
    type V = Image;

    open spec fn deep_view(&self) -> Image {
        self@
    }
}

/// What protects images from removal.
#[derive(Debug)]
pub struct FilterConfig {
    /// The repository that the inventory was asked for. The inventory is
    /// narrowed to it where it is fetched; the filter does not read it.
    pub repository: Option<String>,
    /// An image is kept when one of its names holds one of these texts.
    pub excluded_tags: Vec<String>,
    /// The names under which this tool itself is published. An image is
    /// kept when one of its names holds one of them.
    pub self_image_guard: Vec<String>,
}

/// A [`FilterConfig`] with its texts as sequences of characters.
pub struct Filter {
    pub repository: Option<Seq<char>>,
    pub excluded_tags: Seq<Seq<char>>,
    pub self_image_guard: Seq<Seq<char>>,
}

impl View for FilterConfig {
    type V = Filter;

    open spec fn view(&self) -> Filter {
        Filter {
            repository: self.repository.deep_view(),
            excluded_tags: self.excluded_tags.deep_view(),
            self_image_guard: self.self_image_guard.deep_view(),
        }
    }
}

impl Filter {
    /// Every text that protects an image whose name holds it.
    pub open spec fn patterns(self) -> Seq<Seq<char>> {
        self.self_image_guard + self.excluded_tags
    }
}

/// The names under which this tool is published.
pub open spec fn own_images() -> Seq<Seq<char>> {
    seq!["ghcr.io/datahearth/clear-docker-images"@, "datahearth/clear-docker-images"@]
}

/// Whether an image made at `created_at` lies in the window: at or before
/// the cutoff, or within the range, its two ends included, in whichever
/// order they were given.
pub open spec fn in_window(created_at: int, window: Window) -> bool {
    match window.stop {
        None => created_at <= window.start,
        Some(stop) => {
            ||| window.start <= created_at <= stop
            ||| stop <= created_at <= window.start
        },
    }
}

/// Whether `name` holds one of the `patterns`.
pub open spec fn matches_any(name: Seq<char>, patterns: Seq<Seq<char>>) -> bool {
    exists|p: int| 0 <= p < patterns.len() && is_substring(#[trigger] patterns[p], name)
}

/// Whether one of the names of the image holds one of the `patterns`.
pub open spec fn is_protected(image: Image, patterns: Seq<Seq<char>>) -> bool {
    exists|t: int|
        0 <= t < image.repository_tags.len() && matches_any(
            #[trigger] image.repository_tags[t],
            patterns,
        )
}

/// Whether the image is to be removed: it lies in the window and nothing
/// protects it. An image without names is never protected.
pub open spec fn is_stale(image: Image, window: Window, filter: Filter) -> bool {
    in_window(image.created_at, window) && !is_protected(image, filter.patterns())
}

/// The images of `images` that are to be removed, in their order.
pub open spec fn stale_images(images: Seq<Image>, window: Window, filter: Filter) -> Seq<Image> {
    images.filter(|image: Image| is_stale(image, window, filter))
}

/// The images of `images` that are kept, in their order.
pub open spec fn kept_images(images: Seq<Image>, window: Window, filter: Filter) -> Seq<Image> {
    images.filter(|image: Image| !is_stale(image, window, filter))
}

/// The lines of a listing: what stands before each line feed, from the
/// line feed before it on. What follows the last line feed is no line.
pub open spec fn lines_of(listing: Seq<char>) -> Seq<Seq<char>>
    decreases listing.len(),
{
    let end = first_index(listing, '\n');
    if 0 <= end < listing.len() {
        seq![listing.take(end)] + lines_of(listing.skip(end + 1))
    } else {
        Seq::empty()
    }
}

/// The identifiers of the images, in their order.
pub open spec fn ids_of(images: Seq<Image>) -> Seq<Seq<char>> {
    Seq::new(images.len(), |i: int| images[i].id)
}

/// The sizes of the images, in their order.
pub open spec fn sizes_of(images: Seq<Image>) -> Seq<Seq<char>> {
    Seq::new(images.len(), |i: int| images[i].size)
}

/// The texts that vectors of characters hold.
pub open spec fn texts(patterns: Seq<Vec<char>>) -> Seq<Seq<char>> {
    Seq::new(patterns.len(), |i: int| patterns[i]@)
}

impl FilterConfig {
    /// The configuration that guards the tool's own images.
    pub fn new(repository: Option<String>, excluded_tags: Vec<String>) -> (r: FilterConfig)
        ensures
            r@.repository == repository.deep_view(),
            r@.excluded_tags == excluded_tags.deep_view(),
            r@.self_image_guard == own_images(),
    {
        let mut guard: Vec<String> = Vec::new();
        guard.push("ghcr.io/datahearth/clear-docker-images".to_owned());
        guard.push("datahearth/clear-docker-images".to_owned());
        FilterConfig { repository, excluded_tags, self_image_guard: guard }
    }

    /// The characters of every text that protects.
    fn pattern_chars(&self) -> (r: Vec<Vec<char>>)
        ensures
            texts(r@) == self@.patterns(),
    {
        let mut out: Vec<Vec<char>> = Vec::new();
        push_chars(&mut out, &self.self_image_guard);
        push_chars(&mut out, &self.excluded_tags);
        out
    }
}

/// Appends the characters of each of the `names`.
fn push_chars(out: &mut Vec<Vec<char>>, names: &Vec<String>)
    ensures
        texts(final(out)@) == texts(old(out)@) + names.deep_view(),
{
    let mut i: usize = 0;
    while i < names.len()
        invariant
            i <= names.len(),
            out.len() == old(out).len() + i,
            texts(out@) == texts(old(out)@) + names.deep_view().take(i as int),
        decreases names.len() - i,
    {
        let chars = chars_of(names[i].as_str());
        let ghost before = out@;
        out.push(chars);
        proof {
            assert(texts(out@) =~= texts(before).push(names.deep_view()[i as int])) by {
                assert forall|j: int| 0 <= j < before.len() implies texts(out@)[j] == texts(
                    before,
                )[j] by {
                }
            }
            assert(names.deep_view().take(i + 1) =~= names.deep_view().take(i as int).push(
                names.deep_view()[i as int],
            ));
        }
        i = i + 1;
    }
}

/// Decides whether `name` holds one of the `patterns`.
fn name_matches(name: &Vec<char>, patterns: &Vec<Vec<char>>) -> (r: bool)
    ensures
        r == matches_any(name@, texts(patterns@)),
{
    let mut p: usize = 0;
    while p < patterns.len()
        invariant
            p <= patterns.len(),
            forall|j: int| 0 <= j < p ==> !is_substring(#[trigger] texts(patterns@)[j], name@),
        decreases patterns.len() - p,
    {
        if contains_text(name, &patterns[p]) {
            assert(is_substring(texts(patterns@)[p as int], name@));
            return true;
        }
        p = p + 1;
    }
    false
}

/// Decides whether one of the names of the record holds one of the
/// `patterns`.
fn record_protected(record: &ImageRecord, patterns: &Vec<Vec<char>>) -> (r: bool)
    ensures
        r == is_protected(record@, texts(patterns@)),
{
    let mut t: usize = 0;
    while t < record.repository_tags.len()
        invariant
            t <= record.repository_tags.len(),
            forall|j: int|
                0 <= j < t ==> !matches_any(
                    #[trigger] record@.repository_tags[j],
                    texts(patterns@),
                ),
        decreases record.repository_tags.len() - t,
    {
        let name = chars_of(record.repository_tags[t].as_str());
        if name_matches(&name, patterns) {
            assert(matches_any(record@.repository_tags[t as int], texts(patterns@)));
            return true;
        }
        t = t + 1;
    }
    false
}

/// Decides whether an instant lies in the window.
pub fn window_holds(created_at: i64, window: &DateWindow) -> (r: bool)
    ensures
        r == in_window(created_at as int, window@),
{
    match window.stop {
        None => created_at <= window.start,
        Some(stop) => (window.start <= created_at && created_at <= stop) || (stop <= created_at
            && created_at <= window.start),
    }
}

/// Parts the records into those that are kept and those that are to be
/// removed, each in the order of the input. Nothing is removed here.
pub fn filter(records: Vec<ImageRecord>, window: &DateWindow, config: &FilterConfig) -> (r: (
    Vec<ImageRecord>,
    Vec<ImageRecord>,
))
    ensures
        r.0.deep_view() == kept_images(records.deep_view(), window@, config@),
        r.1.deep_view() == stale_images(records.deep_view(), window@, config@),
{
    let patterns = config.pattern_chars();
    let ghost all = records.deep_view();
    let mut keep: Vec<ImageRecord> = Vec::new();
    let mut delete: Vec<ImageRecord> = Vec::new();
    for record in it: records.into_iter()
        invariant
            texts(patterns@) == config@.patterns(),
            it.seq().len() == all.len(),
            forall|j: int| 0 <= j < all.len() ==> (#[trigger] it.seq()[j])@ == all[j],
            keep.deep_view() == kept_images(all.take(it.index() as int), window@, config@),
            delete.deep_view() == stale_images(all.take(it.index() as int), window@, config@),
    {
        let ghost before = all.take(it.index() as int);
        proof {
            assert(all.take(it.index() + 1) == before.push(record@));
            lemma_filter_step(before, record@, window@, config@);
        }
        let stale = window_holds(record.created_at, window) && !record_protected(
            &record,
            &patterns,
        );
        if stale {
            let ghost removed = delete.deep_view();
            delete.push(record);
            assert(delete.deep_view() == removed.push(record@));
        } else {
            let ghost kept = keep.deep_view();
            keep.push(record);
            assert(keep.deep_view() == kept.push(record@));
        }
    }
    assert(all.take(all.len() as int) == all);
    (keep, delete)
}

/// Filtering parts the images: the two sides together hold what was given,
/// each image as often as it was given, and no image is on both sides.
pub proof fn lemma_filter_partitions(images: Seq<Image>, window: Window, filter: Filter)
    ensures
        kept_images(images, window, filter).to_multiset().add(
            stale_images(images, window, filter).to_multiset(),
        ) == images.to_multiset(),
        forall|image: Image|
            !(kept_images(images, window, filter).contains(image) && stale_images(
                images,
                window,
                filter,
            ).contains(image)),
    decreases images.len(),
{
    let kept = kept_images(images, window, filter);
    let stale = stale_images(images, window, filter);
    broadcast use vstd::seq_lib::group_filter_ensures;
    assert forall|image: Image| !(kept.contains(image) && stale.contains(image)) by {
        if kept.contains(image) && stale.contains(image) {
            let i = choose|i: int| 0 <= i < kept.len() && kept[i] == image;
            let j = choose|j: int| 0 <= j < stale.len() && stale[j] == image;
            assert(!is_stale(kept[i], window, filter));
            assert(is_stale(stale[j], window, filter));
        }
    }
    if images.len() == 0 {
        assert(kept =~= images);
        assert(stale =~= images);
        images.to_multiset_ensures();
        assert(kept.to_multiset().add(stale.to_multiset()) =~= images.to_multiset());
    } else {
        let front = images.drop_last();
        let last = images.last();
        lemma_filter_partitions(front, window, filter);
        lemma_filter_step(front, last, window, filter);
        assert(front.push(last) == images);
        front.to_multiset_ensures();
        kept_images(front, window, filter).to_multiset_ensures();
        stale_images(front, window, filter).to_multiset_ensures();
    }
}

/// Parts the listing of an inventory into its lines, one image each. A
/// listing without a line holds no image.
pub fn parse_imgs(listing: &str) -> (r: Vec<String>)
    ensures
        r.deep_view() == lines_of(listing@),
{
    let chars = chars_of(listing);
    let mut lines: Vec<String> = Vec::new();
    let mut start: usize = 0;
    assert(listing@.skip(0) == listing@);
    loop
        invariant
            chars@ == listing@,
            start <= chars.len(),
            lines.deep_view() + lines_of(listing@.skip(start as int)) == lines_of(listing@),
        decreases chars.len() - start,
    {
        let end = find_char(&chars, '\n', start);
        if end >= chars.len() {
            return lines;
        }
        let line = listing.substring_char(start, end).to_owned();
        let ghost before = lines.deep_view();
        let ghost rest = listing@.skip(start as int);
        lines.push(line);
        proof {
            assert(rest.take(end - start) == listing@.subrange(start as int, end as int));
            assert(rest.skip(end - start + 1) == listing@.skip(end + 1));
            assert(before.push(line@) + lines_of(listing@.skip(end + 1)) == before + lines_of(
                rest,
            ));
        }
        start = end + 1;
    }
}

/// The sizes of the records together, in bytes.
pub fn sum_sizes(records: &Vec<ImageRecord>) -> (r: Result<u128, SizeParseError>)
    ensures
        match r {
            Ok(total) => total_bytes(sizes_of(records.deep_view())) == Ok::<nat, SizeFailure>(
                total as nat,
            ),
            Err(e) => total_bytes(sizes_of(records.deep_view())) == Err::<nat, SizeFailure>(e@),
        },
{
    let ghost sizes = sizes_of(records.deep_view());
    let mut total: u128 = 0;
    let mut i: usize = 0;
    while i < records.len()
        invariant
            i <= records.len(),
            sizes == sizes_of(records.deep_view()),
            total_bytes(sizes.take(i as int)) == Ok::<nat, SizeFailure>(total as nat),
            total <= i * u64::MAX,
        decreases records.len() - i,
    {
        proof {
            assert(sizes.take(i + 1).drop_last() == sizes.take(i as int));
        }
        match deserialize_size(records[i].size.as_str()) {
            Ok(bytes) => {
                total = total + bytes as u128;
            },
            Err(e) => {
                proof {
                    lemma_total_bytes_fails_on(sizes, i + 1);
                }
                return Err(e);
            },
        }
        i = i + 1;
    }
    assert(sizes.take(i as int) == sizes);
    Ok(total)
}

/// Reads the creation time of an image as seconds since the epoch.
pub fn deserialize_creation_date(text: &str) -> (r: Result<i64, TimestampError>)
    ensures
        match r {
            Ok(seconds) => created_at_of(text@) is Some && created_at_of(text@).unwrap().0
                == seconds,
            Err(e) => created_at_of(text@) is None && e.input@ == text@,
        },
{
    match deserialize(text) {
        Ok(at) => Ok(at.timestamp),
        Err(e) => Err(e),
    }
}

/// The identifiers of the records, in their order.
pub fn record_ids(records: &Vec<ImageRecord>) -> (r: Vec<String>)
    ensures
        r.deep_view() == ids_of(records.deep_view()),
{
    let mut ids: Vec<String> = Vec::new();
    let mut i: usize = 0;
    while i < records.len()
        invariant
            i <= records.len(),
            ids.len() == i,
            forall|j: int| 0 <= j < i ==> (#[trigger] ids@[j])@ == records@[j]@.id,
        decreases records.len() - i,
    {
        ids.push(records[i].id.clone());
        i = i + 1;
    }
    ids
}

/// Picks from the records the images to remove, with the tool's own images
/// guarded and those kept whose names hold one of `tags`, and gives their
/// identifiers and the bytes they take up together.
pub fn process_imgs(records: Vec<ImageRecord>, tags: Vec<String>, timestamps: DateWindow) -> (r:
    Result<(Vec<String>, u128), SizeParseError>)
    ensures
        ({
            let stale = stale_images(
                records.deep_view(),
                timestamps@,
                Filter {
                    repository: None,
                    excluded_tags: tags.deep_view(),
                    self_image_guard: own_images(),
                },
            );
            match r {
                Ok(picked) => picked.0.deep_view() == ids_of(stale) && total_bytes(
                    sizes_of(stale),
                ) == Ok::<nat, SizeFailure>(picked.1 as nat),
                Err(e) => total_bytes(sizes_of(stale)) == Err::<nat, SizeFailure>(e@),
            }
        }),
{
    let config = FilterConfig::new(None, tags);
    let parted = filter(records, &timestamps, &config);
    let delete = parted.1;
    match sum_sizes(&delete) {
        Ok(total) => Ok((record_ids(&delete), total)),
        Err(e) => Err(e),
    }
}

/// One more image goes to the side that the rule assigns it, behind the
/// images parted before it.
pub proof fn lemma_filter_step(before: Seq<Image>, image: Image, window: Window, filter: Filter)
    ensures
        stale_images(before.push(image), window, filter) == if is_stale(image, window, filter) {
            stale_images(before, window, filter).push(image)
        } else {
            stale_images(before, window, filter)
        },
        kept_images(before.push(image), window, filter) == if is_stale(image, window, filter) {
            kept_images(before, window, filter)
        } else {
            kept_images(before, window, filter).push(image)
        },
{
    reveal(Seq::filter);
    assert(before.push(image).drop_last() == before);
}

} // verus!
