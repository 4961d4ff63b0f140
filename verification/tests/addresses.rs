use himawari::fetch::deserialize;
use himawari::layout::{image_path, image_path_from, tile_origin, tile_side, IMAGE_DIR, IMAGE_SIZE};
use himawari::url::{tile_urls, tile_urls_from, LATEST_JSON_URL};
use himawari::{DownloadError, DownloadId};

#[test]
fn tile_urls_spell_the_instant() {
    let id = DownloadId::new(1_704_164_645, 0);
    let urls = tile_urls(&id).unwrap();
    assert_eq!(
        urls,
        [
            "https://himawari8.nict.go.jp/img/D531106/2d/550/2024/01/02/030405_0_0.png",
            "https://himawari8.nict.go.jp/img/D531106/2d/550/2024/01/02/030405_0_1.png",
            "https://himawari8.nict.go.jp/img/D531106/2d/550/2024/01/02/030405_1_0.png",
            "https://himawari8.nict.go.jp/img/D531106/2d/550/2024/01/02/030405_1_1.png",
        ]
    );
}

#[test]
fn tile_urls_of_the_epoch() {
    let urls = tile_urls(&DownloadId::new(0, 0)).unwrap();
    assert_eq!(
        urls[0],
        "https://himawari8.nict.go.jp/img/D531106/2d/550/1970/01/01/000000_0_0.png"
    );
}

#[test]
fn tile_urls_from_appends_the_four_suffixes() {
    assert_eq!(
        tile_urls_from("stem"),
        ["stem_0_0.png", "stem_0_1.png", "stem_1_0.png", "stem_1_1.png"]
    );
    assert_eq!(tile_urls_from(""), ["_0_0.png", "_0_1.png", "_1_0.png", "_1_1.png"]);
}

#[test]
fn identifier_outside_the_calendar_has_no_address() {
    let id = DownloadId::new(i64::MAX, 0);
    assert_eq!(
        tile_urls(&id),
        Err(DownloadError::Request(String::from("the identifier has no tile address")))
    );
    assert_eq!(image_path(&id), None);
    let bad_nanos = DownloadId::new(0, 2_000_000_000);
    assert!(tile_urls(&bad_nanos).is_err());
}

#[test]
fn latest_url_is_fixed() {
    assert_eq!(LATEST_JSON_URL, "https://himawari8.nict.go.jp/img/FULL_24h/latest.json");
}

#[test]
fn deserialize_reads_the_server_date() {
    assert_eq!(deserialize("2024-01-02 03:04:05"), Ok(DownloadId::new(1_704_164_645, 0)));
    assert_eq!(deserialize("1970-01-01 00:00:00"), Ok(DownloadId::new(0, 0)));
    assert_eq!(deserialize("1969-12-31 23:59:59"), Ok(DownloadId::new(-1, 0)));
}

#[test]
fn deserialize_refuses_other_text() {
    for text in ["", "2024-01-02", "2024-01-02T03:04:05", "2024-13-02 03:04:05", "20240102030405.png"] {
        match deserialize(text) {
            Err(DownloadError::Metadata(cause)) => assert!(!cause.is_empty()),
            other => panic!("expected a metadata error for {:?}, got {:?}", text, other),
        }
    }
}

#[test]
fn image_path_spells_the_instant() {
    let id = DownloadId::new(1_704_164_645, 0);
    assert_eq!(image_path(&id), Some(String::from("./images/20240102030405.png")));
    assert_eq!(image_path_from("x"), "./images/x.png");
    assert_eq!(IMAGE_DIR, "./images");
}

#[test]
fn tiles_fill_the_columns_top_down() {
    assert_eq!(IMAGE_SIZE, 1080);
    assert_eq!(tile_side(), 540);
    assert_eq!(tile_origin(0), (0, 0));
    assert_eq!(tile_origin(1), (0, 540));
    assert_eq!(tile_origin(2), (540, 0));
    assert_eq!(tile_origin(3), (540, 540));
}
