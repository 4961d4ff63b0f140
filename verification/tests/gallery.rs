use himawari::images::{
    get_images, image_from_name, insert_image, sort_images, DownloadState, DownloadedImage,
    DownloadingImage,
};
use himawari::viewer::{find_image, App, Command, Message, FETCH_INTERVAL_SECS};
use himawari::{DownloadError, DownloadId, Fraction, Progress};

fn image(path: &str, secs: i64) -> DownloadedImage {
    DownloadedImage { path: String::from(path), id: DownloadId::new(secs, 0) }
}

fn paths(images: &[DownloadedImage]) -> Vec<String> {
    images.iter().map(|i| i.path.clone()).collect()
}

fn file(name: &str) -> (String, String) {
    (format!("./images/{}", name), String::from(name))
}

fn viewer_with(names: &[&str]) -> App {
    let files: Vec<(String, String)> = names.iter().map(|n| file(n)).collect();
    App::new(&files).0
}

const T0: i64 = 1_704_164_645;

#[test]
fn get_images_reads_names_and_sorts() {
    let files = vec![
        file("20240102031405.png"),
        file("notes.txt"),
        file("20240102030405.png"),
        file("20240102030405.jpg"),
        file("20231231235959.png"),
    ];
    let images = get_images(&files);
    assert_eq!(
        paths(&images),
        vec![
            "./images/20231231235959.png",
            "./images/20240102030405.png",
            "./images/20240102031405.png",
        ]
    );
    assert_eq!(images[1].id, DownloadId::new(T0, 0));
    assert_eq!(images[2].id, DownloadId::new(T0 + 600, 0));
    assert_eq!(images[0].id, DownloadId::new(1_704_067_199, 0));
}

#[test]
fn get_images_of_nothing_is_empty() {
    assert!(get_images(&Vec::new()).is_empty());
    assert!(get_images(&vec![file("readme.md")]).is_empty());
}

#[test]
fn get_images_keeps_the_path_it_was_given() {
    let files = vec![(String::from("/elsewhere/a"), String::from("20240102030405.png"))];
    let images = get_images(&files);
    assert_eq!(images.len(), 1);
    assert_eq!(images[0].path, "/elsewhere/a");
}

#[test]
fn image_from_name_needs_an_instant() {
    assert!(image_from_name(String::from("p"), None).is_none());
    let made = image_from_name(String::from("p"), Some((7, 8))).unwrap();
    assert_eq!(made.path, "p");
    assert_eq!(made.id, DownloadId::new(7, 8));
}

#[test]
fn sort_images_is_stable() {
    let sorted = sort_images(vec![
        image("c", 3),
        image("a1", 1),
        image("b", 2),
        image("a2", 1),
        image("a3", 1),
        image("z", 0),
    ]);
    assert_eq!(paths(&sorted), vec!["z", "a1", "a2", "a3", "b", "c"]);
}

#[test]
fn insert_image_goes_behind_its_equals() {
    let mut images = vec![image("a", 1), image("b", 2), image("d", 4)];
    insert_image(&mut images, image("b2", 2));
    insert_image(&mut images, image("first", 0));
    insert_image(&mut images, image("last", 9));
    assert_eq!(paths(&images), vec!["first", "a", "b", "b2", "d", "last"]);
}

#[test]
fn find_image_gives_the_first_place() {
    let images = vec![image("a", 1), image("b", 2), image("b2", 2)];
    assert_eq!(find_image(&images, DownloadId::new(2, 0)), Some(1));
    assert_eq!(find_image(&images, DownloadId::new(1, 0)), Some(0));
    assert_eq!(find_image(&images, DownloadId::new(3, 0)), None);
    assert_eq!(find_image(&Vec::new(), DownloadId::new(3, 0)), None);
}

#[test]
fn viewer_starts_on_the_newest_image() {
    let files = vec![file("20240102031405.png"), file("20240102030405.png")];
    let (app, command) = App::new(&files);
    assert!(matches!(command, Command::Startup));
    assert_eq!(app.images().len(), 2);
    assert_eq!(app.current_image(), Some(1));
    assert!(app.download().is_none());
    assert!(!app.shows_menu());
    assert_eq!(app.subscription(), None);
    assert_eq!(FETCH_INTERVAL_SECS, 300);
}

#[test]
fn viewer_without_images_shows_none() {
    let (app, _) = App::new(&Vec::new());
    assert_eq!(app.current_image(), None);
    assert!(app.images().is_empty());
}

#[test]
fn menu_opens_and_closes() {
    let mut app = viewer_with(&[]);
    assert!(matches!(app.update(Message::ShowMenu), Command::Nothing));
    assert!(app.shows_menu());
    assert!(matches!(app.update(Message::HideMenu), Command::Nothing));
    assert!(!app.shows_menu());
    assert!(matches!(app.update(Message::Nothing), Command::Nothing));
    assert!(!app.shows_menu());
}

#[test]
fn fetch_asks_for_the_latest() {
    let mut app = viewer_with(&[]);
    assert!(matches!(app.update(Message::Fetch), Command::FetchLatest));
    assert!(app.download().is_none());
}

#[test]
fn fetched_and_saved_make_messages() {
    assert!(matches!(
        Message::fetched(Ok(DownloadId::new(1, 0))),
        Message::Download(id) if id == DownloadId::new(1, 0)
    ));
    assert!(matches!(
        Message::fetched(Err(DownloadError::Metadata(String::from("x")))),
        Message::Nothing
    ));
    assert!(matches!(Message::saved(None), Message::Nothing));
    assert!(matches!(
        Message::saved(Some(image("p", 1))),
        Message::DownloadCompleted(saved) if saved.path == "p"
    ));
}

#[test]
fn select_shows_the_picked_image() {
    let mut app = viewer_with(&["20240102030405.png", "20240102031405.png"]);
    assert_eq!(app.current_image(), Some(1));
    app.update(Message::SelectImage(image("whatever", T0)));
    assert_eq!(app.current_image(), Some(0));
    app.update(Message::SelectImage(image("whatever", 5)));
    assert_eq!(app.current_image(), None);
}

#[test]
fn download_fills_the_slot_once() {
    let mut app = viewer_with(&["20240102030405.png"]);
    let on_disk = DownloadId::new(T0, 0);
    let fresh = DownloadId::new(T0 + 600, 0);
    assert!(matches!(app.update(Message::Download(on_disk)), Command::Nothing));
    assert!(app.download().is_none());
    assert!(matches!(app.update(Message::Download(fresh)), Command::Nothing));
    assert_eq!(app.subscription(), Some(fresh));
    assert!(matches!(app.download().as_ref().unwrap().state, DownloadState::Starting));
    app.update(Message::DownloadProgressed(fresh, Progress::Started));
    app.update(Message::Download(fresh));
    assert!(matches!(
        app.download().as_ref().unwrap().state,
        DownloadState::Downloading { progress } if progress == Fraction { downloaded: 0, total: 1 }
    ));
    let newer = DownloadId::new(T0 + 1200, 0);
    app.update(Message::Download(newer));
    assert_eq!(app.subscription(), Some(newer));
    assert!(matches!(app.download().as_ref().unwrap().state, DownloadState::Starting));
}

#[test]
fn progress_is_shown_in_the_slot() {
    let mut app = viewer_with(&[]);
    let id = DownloadId::new(T0, 0);
    app.update(Message::Download(id));
    let share = Fraction { downloaded: 3, total: 4 };
    assert!(matches!(
        app.update(Message::DownloadProgressed(id, Progress::Advanced(share))),
        Command::Nothing
    ));
    assert!(matches!(
        app.download().as_ref().unwrap().state,
        DownloadState::Downloading { progress } if progress == share
    ));
    let cause = DownloadError::Transport(String::from("reset"));
    app.update(Message::DownloadProgressed(id, Progress::Failed(cause.clone())));
    assert!(matches!(
        &app.download().as_ref().unwrap().state,
        DownloadState::Failed(error) if *error == cause
    ));
}

#[test]
fn stale_progress_is_passed_over() {
    let mut app = viewer_with(&[]);
    let stale = DownloadId::new(1, 0);
    let tiles = [vec![1], vec![2], vec![3], vec![4]];
    assert!(matches!(
        app.update(Message::DownloadProgressed(stale, Progress::Finished(tiles.clone()))),
        Command::Nothing
    ));
    assert!(app.download().is_none());
    let id = DownloadId::new(T0, 0);
    app.update(Message::Download(id));
    assert!(matches!(
        app.update(Message::DownloadProgressed(stale, Progress::Finished(tiles))),
        Command::Nothing
    ));
    assert!(matches!(app.download().as_ref().unwrap().state, DownloadState::Starting));
}

#[test]
fn finished_hands_the_tiles_on() {
    let mut app = viewer_with(&[]);
    let id = DownloadId::new(T0, 0);
    app.update(Message::Download(id));
    let tiles = [vec![1], vec![2, 2], vec![3], vec![4]];
    match app.update(Message::DownloadProgressed(id, Progress::Finished(tiles.clone()))) {
        Command::ResizeAndSave(tag, handed) => {
            assert_eq!(tag, id);
            assert_eq!(handed, tiles);
        }
        other => panic!("expected ResizeAndSave, got {:?}", other),
    }
    assert!(matches!(app.download().as_ref().unwrap().state, DownloadState::Finished));
}

#[test]
fn completed_image_follows_the_newest() {
    let mut app = viewer_with(&["20240102030405.png", "20240102031405.png"]);
    app.update(Message::Download(DownloadId::new(T0 + 1200, 0)));
    assert_eq!(app.current_image(), Some(1));
    app.update(Message::DownloadCompleted(image("./images/20240102032405.png", T0 + 1200)));
    assert!(app.download().is_none());
    assert_eq!(app.images().len(), 3);
    assert_eq!(app.images()[2].path, "./images/20240102032405.png");
    assert_eq!(app.current_image(), Some(2));
}

#[test]
fn completed_image_leaves_an_older_pick() {
    let mut app = viewer_with(&["20240102030405.png", "20240102031405.png"]);
    app.update(Message::SelectImage(image("", T0)));
    assert_eq!(app.current_image(), Some(0));
    app.update(Message::DownloadCompleted(image("new", T0 + 1200)));
    assert_eq!(app.current_image(), Some(0));
    assert_eq!(app.images().len(), 3);
}

#[test]
fn completed_image_shows_when_nothing_did() {
    let mut app = viewer_with(&[]);
    assert_eq!(app.current_image(), None);
    app.update(Message::DownloadCompleted(image("new", T0)));
    assert_eq!(app.current_image(), Some(0));
    app.update(Message::SelectImage(image("", 1)));
    assert_eq!(app.current_image(), None);
    app.update(Message::DownloadCompleted(image("newer", T0 + 600)));
    assert_eq!(app.current_image(), Some(1));
}

#[test]
fn new_slot_starts_from_nothing() {
    let slot = DownloadingImage::new(DownloadId::new(9, 0));
    assert_eq!(slot.id, DownloadId::new(9, 0));
    assert!(matches!(slot.state, DownloadState::Starting));
}

#[test]
fn errors_describe_themselves() {
    assert_eq!(DownloadError::MissingContentLength.message(), "failed to get content_length");
    assert_eq!(DownloadError::Request(String::from("a")).message(), "a");
    assert_eq!(DownloadError::Transport(String::from("b")).message(), "b");
    assert_eq!(DownloadError::Metadata(String::from("c")).message(), "c");
}
