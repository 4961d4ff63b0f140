//! The images that are on disk and the one that is on its way.

use crate::calendar::{parse_instant, parsed_instant};
use crate::id::{instant_lt, DownloadId};
use crate::progress::{DownloadError, DownloadErrorView, Fraction, Ratio};
use vstd::prelude::*;

verus! {

/// A composite image on disk.
#[derive(Debug, Clone)]
pub struct DownloadedImage {
    /// Where the file lies.
    pub path: String,
    /// Which image it holds.
    pub id: DownloadId,
}

/// A `DownloadedImage` with its path as a sequence of characters.
pub struct ImageView {
    pub path: Seq<char>,
    pub id: DownloadId,
}

impl View for DownloadedImage {
    type V = ImageView;

    open spec fn view(&self) -> ImageView {
        ImageView { path: self.path@, id: self.id }
    }
}

/// How far the download in the slot has come.
#[derive(Debug)]
pub enum DownloadState {
    /// Nothing has been heard of it yet.
    Starting,
    /// The transfers are under way.
    Downloading { progress: Fraction },
    /// All four tiles have arrived.
    Finished,
    /// The download failed.
    Failed(DownloadError),
}

/// A `DownloadState` as contracts see it.
pub enum DownloadStateView {
    Starting,
    Downloading { progress: Ratio },
    Finished,
    Failed(DownloadErrorView),
}

impl View for DownloadState {
    type V = DownloadStateView;

    open spec fn view(&self) -> DownloadStateView {
        match self {
            DownloadState::Starting => DownloadStateView::Starting,
            DownloadState::Downloading { progress } => DownloadStateView::Downloading {
                progress: progress@,
            },
            DownloadState::Finished => DownloadStateView::Finished,
            DownloadState::Failed(error) => DownloadStateView::Failed(error@),
        }
    }
}

/// The one download that may be under way at a time.
#[derive(Debug)]
#[non_exhaustive]
pub struct DownloadingImage {
    /// Which image is being fetched.
    pub id: DownloadId,
    /// How far it has come.
    pub state: DownloadState,
}

/// A `DownloadingImage` as contracts see it.
pub struct DownloadingView {
    pub id: DownloadId,
    pub state: DownloadStateView,
}

impl View for DownloadingImage {
    type V = DownloadingView;

    open spec fn view(&self) -> DownloadingView {
        DownloadingView { id: self.id, state: self.state@ }
    }
}

impl DownloadingImage {
    /// The slot of a download of which nothing has been heard yet.
    pub fn new(id: DownloadId) -> (download: DownloadingImage)
        ensures
            download@ == (DownloadingView { id, state: DownloadStateView::Starting }),
    {
        DownloadingImage { id, state: DownloadState::Starting }
    }
}

/// The strftime pattern of the name of an image file.
pub open spec fn file_name_pattern() -> Seq<char> {
    "%Y%m%d%H%M%S.png"@
}

/// The image that a file stands for: its path with the instant that its
/// name spells, or none where the name spells no instant.
pub open spec fn image_of_file(path: Seq<char>, parsed: Option<(i64, u32)>) -> Option<ImageView> {
    match parsed {
        Some((secs, nanos)) => Some(ImageView { path, id: DownloadId::at(secs, nanos) }),
        None => None,
    }
}

/// The images among `files`, each given as a path and a file name, in the
/// order of the files.
pub open spec fn images_among(files: Seq<(Seq<char>, Seq<char>)>) -> Seq<ImageView>
    decreases files.len(),
{
    if files.len() == 0 {
        Seq::empty()
    } else {
        let earlier = images_among(files.drop_last());
        match image_of_file(files.last().0, parsed_instant(files.last().1, file_name_pattern())) {
            Some(image) => earlier.push(image),
            None => earlier,
        }
    }
}

/// `images` with `image` put in behind the last one that is not later than
/// it, where `images` is in order.
pub open spec fn inserted(images: Seq<ImageView>, image: ImageView) -> Seq<ImageView>
    decreases images.len(),
{
    if images.len() > 0 && instant_lt(image.id.instant(), images.last().id.instant()) {
        inserted(images.drop_last(), image).push(images.last())
    } else {
        images.push(image)
    }
}

/// `images` in the order of their instants, images of one instant in the
/// order in which they came.
pub open spec fn in_order(images: Seq<ImageView>) -> Seq<ImageView>
    decreases images.len(),
{
    if images.len() == 0 {
        Seq::empty()
    } else {
        inserted(in_order(images.drop_last()), images.last())
    }
}

/// No image stands before an earlier one.
pub open spec fn ascending(images: Seq<ImageView>) -> bool {
    forall|i: int, j: int|
        0 <= i < j < images.len() ==> !instant_lt(
            (#[trigger] images[j]).id.instant(),
            (#[trigger] images[i]).id.instant(),
        )
}

/// The image that a file stands for, from what its name was read as.
pub fn image_from_name(path: String, parsed: Option<(i64, u32)>) -> (image: Option<
    DownloadedImage,
>)
    ensures
        match image {
            Some(image) => image_of_file(path@, parsed) == Some(image@),
            None => image_of_file(path@, parsed) is None,
        },
{
    match parsed {
        Some((secs, nanos)) => Some(DownloadedImage { path, id: DownloadId::new(secs, nanos) }),
        None => None,
    }
}

/// The images of a sequence as contracts see them.
pub open spec fn image_views(images: Seq<DownloadedImage>) -> Seq<ImageView> {
    images.map_values(|image: DownloadedImage| image@)
}

/// Puts `image` into `images`, which is in order, behind the last image
/// that is not later than it.
pub fn insert_image(images: &mut Vec<DownloadedImage>, image: DownloadedImage)
    ensures
        image_views(final(images)@) == inserted(image_views(old(images)@), image@),
{
    let ghost before = image_views(images@);
    let mut position: usize = images.len();
    proof {
        assert(before.take(position as int) =~= before);
        assert(inserted(before, image@) + before.skip(position as int) =~= inserted(
            before,
            image@,
        ));
    }
    while position > 0 && image.id.precedes(&images[position - 1].id)
        invariant
            position <= images.len(),
            images@ == old(images)@,
            before == image_views(images@),
            inserted(before, image@) == inserted(before.take(position as int), image@)
                + before.skip(position as int),
        decreases position,
    {
        proof {
            let head = before.take(position as int);
            assert(head.last() == before[position - 1]);
            assert(head.drop_last() =~= before.take(position - 1));
            assert(inserted(head, image@) == inserted(head.drop_last(), image@).push(head.last()));
            assert(inserted(head.drop_last(), image@).push(head.last()) + before.skip(
                position as int,
            ) =~= inserted(before.take(position - 1), image@) + before.skip(position - 1));
        }
        position = position - 1;
    }
    proof {
        let head = before.take(position as int);
        if position > 0 {
            assert(head.last() == before[position - 1]);
        }
        assert(inserted(head, image@) == head.push(image@));
    }
    images.insert(position, image);
    assert(image_views(images@) =~= before.take(position as int).push(image@) + before.skip(
        position as int,
    ));
}

/// Puts `images` in the order of their instants. Images of one instant
/// stay in the order in which they came.
pub fn sort_images(images: Vec<DownloadedImage>) -> (sorted: Vec<DownloadedImage>)
    ensures
        image_views(sorted@) == in_order(image_views(images@)),
{
    let ghost all = image_views(images@);
    let mut waiting = images;
    let mut pending: Vec<DownloadedImage> = Vec::new();
    while waiting.len() > 0
        invariant
            waiting@.len() + pending@.len() == all.len(),
            image_views(waiting@) == all.take(waiting@.len() as int),
            forall|k: int|
                0 <= k < pending@.len() ==> (#[trigger] pending@[k])@ == all[all.len() - 1 - k],
        decreases waiting.len(),
    {
        let image = waiting.pop().unwrap();
        assert(image@ == all[waiting@.len() as int]) by {
            assert(all.take(waiting@.len() as int + 1)[waiting@.len() as int] == image@);
        }
        pending.push(image);
        assert(image_views(waiting@) =~= all.take(waiting@.len() as int));
    }
    let mut sorted: Vec<DownloadedImage> = Vec::new();
    assert(all.take(0) =~= Seq::<ImageView>::empty());
    while pending.len() > 0
        invariant
            pending@.len() <= all.len(),
            forall|k: int|
                0 <= k < pending@.len() ==> (#[trigger] pending@[k])@ == all[all.len() - 1 - k],
            image_views(sorted@) == in_order(all.take(all.len() - pending@.len())),
        decreases pending.len(),
    {
        let ghost done = all.len() - pending@.len();
        let image = pending.pop().unwrap();
        proof {
            assert(all[done] == image@);
            assert(all.take(done + 1).drop_last() =~= all.take(done));
            assert(all.take(done + 1).last() == image@);
        }
        insert_image(&mut sorted, image);
    }
    assert(all.take(all.len() as int) =~= all);
    sorted
}

/// A list of files, each a path and a file name, as contracts see it.
pub open spec fn file_views(files: Seq<(String, String)>) -> Seq<(Seq<char>, Seq<char>)> {
    files.map_values(|file: (String, String)| (file.0@, file.1@))
}

/// The images among `files`, each given as its path and its file name, in
/// the order of their instants. A file whose name spells no instant is
/// left out.
pub fn get_images(files: &Vec<(String, String)>) -> (images: Vec<DownloadedImage>)
    ensures
        image_views(images@) == in_order(images_among(file_views(files@))),
{
    let ghost all = file_views(files@);
    let mut found: Vec<DownloadedImage> = Vec::new();
    assert(all.take(0) =~= Seq::<(Seq<char>, Seq<char>)>::empty());
    for position in 0..files.len()
        invariant
            all == file_views(files@),
            image_views(found@) == images_among(all.take(position as int)),
    {
        let ghost before = image_views(found@);
        let parsed = match parse_instant(files[position].1.as_str(), "%Y%m%d%H%M%S.png") {
            Ok(instant) => Some(instant),
            Err(_) => None,
        };
        proof {
            assert(all.take(position + 1).drop_last() =~= all.take(position as int));
            assert(all.take(position + 1).last() == all[position as int]);
        }
        match image_from_name(files[position].0.clone(), parsed) {
            Some(image) => {
                found.push(image);
                assert(image_views(found@) =~= before.push(image@));
            },
            None => {},
        }
    }
    assert(all.take(files@.len() as int) =~= all);
    sort_images(found)
}

/// Putting an image into a list that is in order leaves it in order.
pub proof fn lemma_inserted_ascending(images: Seq<ImageView>, image: ImageView)
    requires
        ascending(images),
    ensures
        ascending(inserted(images, image)),
        inserted(images, image).len() == images.len() + 1,
        forall|k: int|
            0 <= k < inserted(images, image).len() ==> (#[trigger] inserted(images, image)[k])
                == image || images.contains(inserted(images, image)[k]),
    decreases images.len(),
{
    if images.len() > 0 && instant_lt(image.id.instant(), images.last().id.instant()) {
        let head = images.drop_last();
        let shorter = inserted(head, image);
        assert forall|i: int, j: int| 0 <= i < j < head.len() implies !instant_lt(
            (#[trigger] head[j]).id.instant(),
            (#[trigger] head[i]).id.instant(),
        ) by {
            assert(head[i] == images[i] && head[j] == images[j]);
        }
        lemma_inserted_ascending(head, image);
        let longer = shorter.push(images.last());
        assert forall|i: int, j: int| 0 <= i < j < longer.len() implies !instant_lt(
            (#[trigger] longer[j]).id.instant(),
            (#[trigger] longer[i]).id.instant(),
        ) by {
            if j == longer.len() - 1 {
                if shorter[i] != image {
                    assert(head.contains(shorter[i]));
                    let k = choose|k: int| 0 <= k < head.len() && head[k] == shorter[i];
                    assert(images[k] == shorter[i]);
                    assert(images[images.len() - 1] == images.last());
                }
            }
        }
        assert forall|k: int| 0 <= k < longer.len() implies (#[trigger] longer[k]) == image
            || images.contains(longer[k]) by {
            if k < shorter.len() {
                if shorter[k] != image {
                    assert(head.contains(shorter[k]));
                    let at = choose|at: int| 0 <= at < head.len() && head[at] == shorter[k];
                    assert(images[at] == shorter[k]);
                }
            } else {
                assert(images[images.len() - 1] == longer[k]);
            }
        }
    } else {
        let longer = images.push(image);
        assert forall|k: int| 0 <= k < longer.len() implies (#[trigger] longer[k]) == image
            || images.contains(longer[k]) by {
            if k < images.len() {
                assert(images[k] == longer[k]);
            }
        }
        assert forall|i: int, j: int| 0 <= i < j < longer.len() implies !instant_lt(
            (#[trigger] longer[j]).id.instant(),
            (#[trigger] longer[i]).id.instant(),
        ) by {
            if j == longer.len() - 1 && images.len() > 0 {
                assert(!instant_lt(images[images.len() - 1].id.instant(), images[i].id.instant())
                    || i == images.len() - 1);
            }
        }
    }
}

/// Putting an image into a list adds that image and nothing else.
pub proof fn lemma_inserted_adds(images: Seq<ImageView>, image: ImageView)
    ensures
        inserted(images, image).to_multiset() == images.to_multiset().insert(image),
    decreases images.len(),
{
    broadcast use vstd::seq_lib::to_multiset_build;

    if images.len() > 0 && instant_lt(image.id.instant(), images.last().id.instant()) {
        let head = images.drop_last();
        lemma_inserted_adds(head, image);
        assert(head.push(images.last()) =~= images);
        assert(inserted(images, image).to_multiset() =~= images.to_multiset().insert(image));
    }
}

/// Putting an image into a list puts it behind the images of its own
/// instant and leaves the images of every instant in the order they had.
pub proof fn lemma_inserted_keeps_turns(images: Seq<ImageView>, image: ImageView, id: DownloadId)
    ensures
        inserted(images, image).filter(|other: ImageView| other.id == id) == if image.id == id {
            images.filter(|other: ImageView| other.id == id).push(image)
        } else {
            images.filter(|other: ImageView| other.id == id)
        },
    decreases images.len(),
{
    broadcast use Seq::lemma_filter_push;

    let of_instant = |other: ImageView| other.id == id;
    if images.len() > 0 && instant_lt(image.id.instant(), images.last().id.instant()) {
        let head = images.drop_last();
        lemma_inserted_keeps_turns(head, image, id);
        assert(head.push(images.last()) =~= images);
        assert(inserted(images, image) == inserted(head, image).push(images.last()));
        DownloadId::lemma_equal_by_instant(image.id, images.last().id);
        if image.id == id {
            assert(!of_instant(images.last()));
        }
    }
}

/// A list put in order is in order.
pub proof fn lemma_in_order_ascending(images: Seq<ImageView>)
    ensures
        ascending(in_order(images)),
        in_order(images).len() == images.len(),
    decreases images.len(),
{
    if images.len() > 0 {
        lemma_in_order_ascending(images.drop_last());
        lemma_inserted_ascending(in_order(images.drop_last()), images.last());
    }
}

/// A list put in order holds the images it held before, each as often as
/// before.
pub proof fn lemma_in_order_permutes(images: Seq<ImageView>)
    ensures
        in_order(images).to_multiset() == images.to_multiset(),
    decreases images.len(),
{
    broadcast use vstd::seq_lib::to_multiset_build;

    if images.len() > 0 {
        lemma_in_order_permutes(images.drop_last());
        lemma_inserted_adds(in_order(images.drop_last()), images.last());
        assert(images.drop_last().push(images.last()) =~= images);
    } else {
        assert(in_order(images) =~= images);
    }
}

/// Putting a list in order leaves the images of one instant in the order
/// in which they came.
pub proof fn lemma_in_order_keeps_turns(images: Seq<ImageView>, id: DownloadId)
    ensures
        in_order(images).filter(|other: ImageView| other.id == id) == images.filter(
            |other: ImageView| other.id == id,
        ),
    decreases images.len(),
{
    broadcast use Seq::lemma_filter_push;

    if images.len() > 0 {
        lemma_in_order_keeps_turns(images.drop_last(), id);
        lemma_inserted_keeps_turns(in_order(images.drop_last()), images.last(), id);
        assert(images.drop_last().push(images.last()) =~= images);
    } else {
        assert(in_order(images) =~= images);
    }
}

} // verus!
