//! The state of the viewer: the images on disk, the one on show, the one
//! download that may be under way, and what each message does to them.

use crate::id::DownloadId;
use crate::images::{
    get_images, image_views, images_among, in_order, file_views, DownloadState, DownloadStateView,
    DownloadedImage, DownloadingImage, DownloadingView, ImageView,
};
use crate::progress::{DownloadError, Fraction, Progress, ProgressView, Ratio};
use vstd::prelude::*;

verus! {

/// The seconds between two looks for a newer image.
pub const FETCH_INTERVAL_SECS: u64 = 300;

/// What the viewer is told.
#[derive(Debug, Clone)]
pub enum Message {
    /// Nothing happened.
    Nothing,
    /// It is time to look for a newer image.
    Fetch,
    /// This is the latest image: fetch it unless it is here or on its way.
    Download(DownloadId),
    /// The download of this identifier reports this.
    DownloadProgressed(DownloadId, Progress),
    /// This image was put together and saved.
    DownloadCompleted(DownloadedImage),
    /// The menu was asked for.
    ShowMenu,
    /// The menu was dismissed.
    HideMenu,
    /// This image was picked from the menu.
    SelectImage(DownloadedImage),
}

/// A `Message` as contracts see it.
pub enum MessageView {
    Nothing,
    Fetch,
    Download(DownloadId),
    DownloadProgressed(DownloadId, ProgressView),
    DownloadCompleted(ImageView),
    ShowMenu,
    HideMenu,
    SelectImage(ImageView),
}

impl View for Message {
    type V = MessageView;

    open spec fn view(&self) -> MessageView {
        match self {
            Message::Nothing => MessageView::Nothing,
            Message::Fetch => MessageView::Fetch,
            Message::Download(id) => MessageView::Download(*id),
            Message::DownloadProgressed(id, progress) => MessageView::DownloadProgressed(
                *id,
                progress@,
            ),
            Message::DownloadCompleted(image) => MessageView::DownloadCompleted(image@),
            Message::ShowMenu => MessageView::ShowMenu,
            Message::HideMenu => MessageView::HideMenu,
            Message::SelectImage(image) => MessageView::SelectImage(image@),
        }
    }
}

/// What the viewer asks to have done. Each answer comes back as a message.
#[derive(Debug, Clone)]
pub enum Command {
    /// Nothing.
    Nothing,
    /// Fill the screen and send `Message::Fetch`.
    Startup,
    /// Ask which image is the latest, and send what `Message::fetched`
    /// makes of the answer.
    FetchLatest,
    /// Put the four tiles of this identifier together and save them, and
    /// send what `Message::saved` makes of the outcome.
    ResizeAndSave(DownloadId, [Vec<u8>; 4]),
}

/// A `Command` as contracts see it.
pub enum CommandView {
    Nothing,
    Startup,
    FetchLatest,
    ResizeAndSave(DownloadId, Seq<Seq<u8>>),
}

impl View for Command {
    type V = CommandView;

    open spec fn view(&self) -> CommandView {
        match self {
            Command::Nothing => CommandView::Nothing,
            Command::Startup => CommandView::Startup,
            Command::FetchLatest => CommandView::FetchLatest,
            Command::ResizeAndSave(id, tiles) => CommandView::ResizeAndSave(
                *id,
                Seq::new(4, |i: int| tiles[i]@),
            ),
        }
    }
}

impl Message {
    /// The message that answers `Command::FetchLatest`: the latest image is
    /// to be downloaded, or, where it could not be learned, nothing.
    pub fn fetched(latest: Result<DownloadId, DownloadError>) -> (message: Message)
        ensures
            message@ == match latest {
                Ok(id) => MessageView::Download(id),
                Err(_) => MessageView::Nothing,
            },
    {
        match latest {
            Ok(id) => Message::Download(id),
            Err(_) => Message::Nothing,
        }
    }

    /// The message that answers `Command::ResizeAndSave`: the image that
    /// was saved, or, where saving failed, nothing.
    pub fn saved(image: Option<DownloadedImage>) -> (message: Message)
        ensures
            message@ == match image {
                Some(image) => MessageView::DownloadCompleted(image@),
                None => MessageView::Nothing,
            },
    {
        match image {
            Some(image) => Message::DownloadCompleted(image),
            None => Message::Nothing,
        }
    }
}

/// The viewer as contracts see it.
pub struct AppView {
    /// The images on disk.
    pub images: Seq<ImageView>,
    /// The download that is under way, if any.
    pub download: Option<DownloadingView>,
    /// The place in `images` of the image on show, if any.
    pub current_image: Option<usize>,
    /// Whether the menu is open.
    pub shows_menu: bool,
}

/// The place of the first image of `id` in `images`, if there is one.
pub open spec fn first_of(images: Seq<ImageView>, id: DownloadId) -> Option<usize>
    decreases images.len(),
{
    if images.len() == 0 {
        None
    } else {
        match first_of(images.drop_last(), id) {
            Some(place) => Some(place),
            None => if images.last().id == id {
                Some((images.len() - 1) as usize)
            } else {
                None
            },
        }
    }
}

/// The place of the last of `count` images, if there is any.
pub open spec fn last_of(count: nat) -> Option<usize> {
    if count == 0 {
        None
    } else {
        Some((count - 1) as usize)
    }
}

/// The state that the slot shows once `progress` has been reported.
pub open spec fn state_shown(progress: ProgressView) -> DownloadStateView {
    match progress {
        ProgressView::Started => DownloadStateView::Downloading {
            progress: Ratio { downloaded: 0, total: 1 },
        },
        ProgressView::Advanced(share) => DownloadStateView::Downloading { progress: share },
        ProgressView::Finished(_) => DownloadStateView::Finished,
        ProgressView::Failed(error) => DownloadStateView::Failed(error),
    }
}

/// What a message does to the viewer, and what the viewer then asks for.
///
/// The menu opens and closes. A picked image goes on show if it is among
/// the images, and nothing is on show if it is not. `Fetch` asks for the
/// latest identifier. `Download` fills the slot unless the image is on disk
/// or already in the slot. A report from the download in the slot is shown
/// there, and its `Finished` hands the tiles on to be saved; a report from
/// any other download is passed over. A saved image empties the slot and
/// joins the images; it goes on show if nothing was, or if the newest was.
pub open spec fn updated(app: AppView, message: MessageView) -> (AppView, CommandView) {
    match message {
        MessageView::Nothing => (app, CommandView::Nothing),
        MessageView::ShowMenu => (AppView { shows_menu: true, ..app }, CommandView::Nothing),
        MessageView::HideMenu => (AppView { shows_menu: false, ..app }, CommandView::Nothing),
        MessageView::SelectImage(image) => (
            AppView { current_image: first_of(app.images, image.id), ..app },
            CommandView::Nothing,
        ),
        MessageView::Fetch => (app, CommandView::FetchLatest),
        MessageView::Download(id) => if first_of(app.images, id) is Some || (app.download matches Some(
            download,
        ) && download.id == id) {
            (app, CommandView::Nothing)
        } else {
            (
                AppView {
                    download: Some(DownloadingView { id, state: DownloadStateView::Starting }),
                    ..app
                },
                CommandView::Nothing,
            )
        },
        MessageView::DownloadProgressed(id, progress) => if app.download matches Some(download)
            && download.id == id {
            (
                AppView {
                    download: Some(DownloadingView { id, state: state_shown(progress) }),
                    ..app
                },
                match progress {
                    ProgressView::Finished(tiles) => CommandView::ResizeAndSave(id, tiles),
                    _ => CommandView::Nothing,
                },
            )
        } else {
            (app, CommandView::Nothing)
        },
        MessageView::DownloadCompleted(image) => (
            AppView {
                images: app.images.push(image),
                download: None,
                current_image: match app.current_image {
                    Some(place) => if place + 1 == app.images.len() {
                        Some(app.images.len() as usize)
                    } else {
                        Some(place)
                    },
                    None => Some(app.images.len() as usize),
                },
                shows_menu: app.shows_menu,
            },
            CommandView::Nothing,
        ),
    }
}

/// Only one download is under way at a time, and a trigger for the image
/// that is already on its way or on disk changes nothing: a second
/// `Download` of one identifier leaves the viewer as the first left it.
pub proof fn lemma_second_trigger_is_passed_over(app: AppView, id: DownloadId)
    ensures
        updated(updated(app, MessageView::Download(id)).0, MessageView::Download(id)) == (
            updated(app, MessageView::Download(id)).0,
            CommandView::Nothing,
        ),
{
}

/// A report from a download that is not in the slot changes nothing and
/// asks for nothing.
pub proof fn lemma_stale_report_is_passed_over(app: AppView, id: DownloadId, report: ProgressView)
    requires
        !(app.download matches Some(download) && download.id == id),
    ensures
        updated(app, MessageView::DownloadProgressed(id, report)) == (app, CommandView::Nothing),
{
}

/// The place of the first image of `id` in `images`, if there is one.
pub fn find_image(images: &Vec<DownloadedImage>, id: DownloadId) -> (place: Option<usize>)
    ensures
        place == first_of(image_views(images@), id),
        place matches Some(place) ==> place < images@.len(),
{
    let ghost all = image_views(images@);
    assert(all.take(0) =~= Seq::<ImageView>::empty());
    for position in 0..images.len()
        invariant
            all == image_views(images@),
            first_of(all.take(position as int), id) is None,
    {
        proof {
            assert(all.take(position + 1).drop_last() =~= all.take(position as int));
            assert(all.take(position + 1).last() == images@[position as int]@);
        }
        if images[position].id == id {
            proof {
                lemma_first_of_holds(all, position + 1, id);
            }
            return Some(position);
        }
    }
    assert(all.take(images@.len() as int) =~= all);
    None
}

/// Once an identifier is found within the front of a list, a longer front
/// finds it at the same place.
pub proof fn lemma_first_of_holds(images: Seq<ImageView>, front: int, id: DownloadId)
    requires
        0 <= front <= images.len(),
        first_of(images.take(front), id) is Some,
    ensures
        first_of(images, id) == first_of(images.take(front), id),
    decreases images.len() - front,
{
    if front < images.len() {
        assert(images.take(front + 1).drop_last() =~= images.take(front));
        lemma_first_of_holds(images, front + 1, id);
    } else {
        assert(images.take(front) =~= images);
    }
}

/// The viewer: the images on disk, the one on show, the one download that
/// may be under way, and whether the menu is open. The image on show is
/// always one of the images.
#[derive(Debug)]
pub struct App {
    images: Vec<DownloadedImage>,
    download: Option<DownloadingImage>,
    current_image: Option<usize>,
    shows_menu: bool,
}

impl View for App {
    type V = AppView;

    closed spec fn view(&self) -> AppView {
        AppView {
            images: image_views(self.images@),
            download: match self.download {
                Some(download) => Some(download@),
                None => None,
            },
            current_image: self.current_image,
            shows_menu: self.shows_menu,
        }
    }
}

impl AppView {
    /// The image on show, if any, is one of the images.
    pub open spec fn shows_an_image(self) -> bool {
        self.current_image matches Some(place) ==> place < self.images.len()
    }
}

/// What `report` shows in the slot.
fn shown(report: &Progress) -> (state: DownloadState)
    requires
        !(report is Failed),
    ensures
        state@ == state_shown(report@),
{
    match report {
        Progress::Started => DownloadState::Downloading {
            progress: Fraction { downloaded: 0, total: 1 },
        },
        Progress::Advanced(share) => DownloadState::Downloading { progress: *share },
        _ => DownloadState::Finished,
    }
}

impl App {
    #[verifier::type_invariant]
    spec fn on_show_is_listed(&self) -> bool {
        self.current_image matches Some(place) ==> place < self.images@.len()
    }

    /// A viewer without images.
    fn empty() -> (app: App)
        ensures
            app@ == (AppView {
                images: Seq::empty(),
                download: None,
                current_image: None,
                shows_menu: false,
            }),
    {
        let app = App {
            images: Vec::new(),
            download: None,
            current_image: None,
            shows_menu: false,
        };
        assert(app@.images =~= Seq::<ImageView>::empty());
        app
    }

    /// The viewer at its start, from the files of the image directory, each
    /// given as its path and its file name: the images among them in the
    /// order of their instants, the newest on show, no download, the menu
    /// closed. It asks for the start-up work.
    pub fn new(files: &Vec<(String, String)>) -> (start: (App, Command))
        ensures
            start.0@ == (AppView {
                images: in_order(images_among(file_views(files@))),
                download: None,
                current_image: last_of(in_order(images_among(file_views(files@))).len()),
                shows_menu: false,
            }),
            start.1@ == CommandView::Startup,
    {
        let images = get_images(files);
        let current_image = if images.len() == 0 {
            None
        } else {
            Some(images.len() - 1)
        };
        (App { images, download: None, current_image, shows_menu: false }, Command::Startup)
    }

    /// The images on disk.
    pub fn images(&self) -> (images: &Vec<DownloadedImage>)
        ensures
            image_views(images@) == self@.images,
    {
        &self.images
    }

    /// The download that is under way, if any.
    pub fn download(&self) -> (download: &Option<DownloadingImage>)
        ensures
            match download {
                Some(download) => self@.download == Some(download@),
                None => self@.download is None,
            },
    {
        &self.download
    }

    /// The place among the images of the one on show, if any.
    pub fn current_image(&self) -> (place: Option<usize>)
        ensures
            place == self@.current_image,
            self@.shows_an_image(),
    {
        proof {
            use_type_invariant(self);
        }
        self.current_image
    }

    /// Whether the menu is open.
    pub fn shows_menu(&self) -> (open: bool)
        ensures
            open == self@.shows_menu,
    {
        self.shows_menu
    }

    /// The identifier whose download is to be listened to, if any.
    pub fn subscription(&self) -> (id: Option<DownloadId>)
        ensures
            id == match self@.download {
                Some(download) => Some(download.id),
                None => None,
            },
    {
        match &self.download {
            Some(download) => Some(download.id),
            None => None,
        }
    }

    /// Takes in `message` and says what is to be done about it.
    pub fn update(&mut self, message: Message) -> (command: Command)
        ensures
            final(self)@ == updated(old(self)@, message@).0,
            command@ == updated(old(self)@, message@).1,
            final(self)@.shows_an_image(),
    {
        let mut taken = App::empty();
        core::mem::swap(self, &mut taken);
        proof {
            use_type_invariant(&taken);
        }
        let App { images, download, current_image, shows_menu } = taken;
        let mut images = images;
        let mut download = download;
        let mut current_image = current_image;
        let mut shows_menu = shows_menu;
        let mut command = Command::Nothing;
        match message {
            Message::Nothing => {},
            Message::ShowMenu => {
                shows_menu = true;
            },
            Message::HideMenu => {
                shows_menu = false;
            },
            Message::SelectImage(image) => {
                current_image = find_image(&images, image.id);
            },
            Message::Fetch => {
                command = Command::FetchLatest;
            },
            Message::Download(id) => {
                let on_disk = find_image(&images, id).is_some();
                let on_its_way = match &download {
                    Some(current) => current.id == id,
                    None => false,
                };
                if !on_disk && !on_its_way {
                    download = Some(DownloadingImage::new(id));
                }
            },
            Message::DownloadProgressed(id, report) => {
                let expected = match &download {
                    Some(current) => current.id == id,
                    None => false,
                };
                if expected {
                    match report {
                        Progress::Failed(error) => {
                            download = Some(
                                DownloadingImage { id, state: DownloadState::Failed(error) },
                            );
                        },
                        Progress::Finished(tiles) => {
                            download = Some(DownloadingImage { id, state: DownloadState::Finished });
                            command = Command::ResizeAndSave(id, tiles);
                        },
                        report => {
                            download = Some(DownloadingImage { id, state: shown(&report) });
                        },
                    }
                }
            },
            Message::DownloadCompleted(image) => {
                let ghost before = image_views(images@);
                let newest: usize = images.len();
                images.push(image);
                assert(image_views(images@) =~= before.push(image@));
                download = None;
                current_image = match current_image {
                    Some(place) => if place + 1 == newest {
                        Some(newest)
                    } else {
                        Some(place)
                    },
                    None => Some(newest),
                };
            },
        }
        *self = App { images, download, current_image, shows_menu };
        command
    }
}

} // verus!
