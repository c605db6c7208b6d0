use inkplate_comics::comic_image::ComicImage;
use inkplate_comics::feed::{
    apply_collection_constraints, is_comic_media, refresh_user_comic_collection, Comic, ComicStrip,
    TimelineEntry, UserComicCollection, UserId,
};
use inkplate_comics::raster::{ColorMode, Raster};
use inkplate_comics::selection::{first_filled, random_comic_strips, shuffled_indices};

fn image() -> ComicImage {
    let raster = Raster { width: 1, height: 1, color: ColorMode::L8, data: vec![5] };
    ComicImage::from(&raster).expect("encodes")
}

fn strip(id: u64, created_at: i64) -> ComicStrip {
    ComicStrip { id, created_at, comics: vec![Comic::new(format!("https://x/{}", id), image())] }
}

fn entry(id: u64, created_at: i64, has_media: bool, images: usize) -> TimelineEntry {
    let comics = (0..images).map(|i| Comic::new(format!("https://x/{}/{}", id, i), image())).collect();
    TimelineEntry { id, created_at, has_media, comics }
}

fn ids(c: &UserComicCollection) -> Vec<u64> {
    c.comic_strips.iter().map(|s| s.id).collect()
}

#[test]
fn video_thumbnails_are_not_comics() {
    assert!(is_comic_media(true, "https://twitter.com/a/status/1/photo/1"));
    assert!(!is_comic_media(true, "https://twitter.com/a/status/1/video/1"));
    assert!(!is_comic_media(false, "https://twitter.com/a/status/1/photo/1"));
    assert!(!is_comic_media(true, "/video/"));
    assert!(is_comic_media(true, "/video"));
}

#[test]
fn new_collection_is_empty() {
    let c = UserComicCollection::new(UserId::ScreenName("artist".to_string()));
    assert_eq!(c.max_amount, 100);
    assert!(c.comic_strips.is_empty());
    assert_eq!(c.max_id, None);
    let c = UserComicCollection::new_with_max_amount(UserId::Id(7), 3);
    assert_eq!(c.max_amount, 3);
}

#[test]
fn constraints_keep_the_newest_first() {
    let mut c = UserComicCollection::new_with_max_amount(UserId::Id(1), 3);
    c.comic_strips = vec![strip(1, 50), strip(2, 10), strip(3, 70), strip(4, 50), strip(5, 5)];
    let c = apply_collection_constraints(c);
    assert_eq!(ids(&c), vec![3, 4, 1]);
    assert_eq!(c.comic_ids(), vec![3, 4, 1]);
    assert!(c.knows(4));
    assert!(!c.knows(2));
}

#[test]
fn refresh_adds_new_posts_with_kept_images() {
    let mut c = UserComicCollection::new_with_max_amount(UserId::Id(1), 10);
    c.comic_strips = vec![strip(1, 100)];
    let feed = vec![
        entry(1, 100, true, 1),
        entry(2, 200, true, 2),
        entry(3, 300, false, 0),
        entry(4, 150, true, 0),
        entry(5, 400, true, 1),
        entry(5, 400, true, 1),
    ];
    let c = refresh_user_comic_collection(c, feed, Some(99));
    assert_eq!(ids(&c), vec![5, 2, 1]);
    assert_eq!(c.comic_strips[1].comics.len(), 2);
    assert_eq!(c.max_id, Some(99));
    let c = refresh_user_comic_collection(c, vec![], None);
    assert_eq!(c.max_id, Some(99));
    assert_eq!(ids(&c), vec![5, 2, 1]);
}

#[test]
fn shuffled_indices_are_a_permutation() {
    let mut order = shuffled_indices(20);
    order.sort();
    assert_eq!(order, (0..20).collect::<Vec<usize>>());
    assert!(shuffled_indices(0).is_empty());
}

#[test]
fn first_filled_skips_empty_collections() {
    assert_eq!(first_filled(&vec![0, 3, 0, 2], &vec![2, 0, 3, 1]), Some(3));
    assert_eq!(first_filled(&vec![0, 0], &vec![1, 0]), None);
}

#[test]
fn random_strips_come_from_a_filled_collection() {
    let picked = random_comic_strips(&vec![0, 4, 0]).expect("one collection holds strips");
    assert_eq!(picked.0, 1);
    let mut order = picked.1;
    order.sort();
    assert_eq!(order, vec![0, 1, 2, 3]);
    assert!(random_comic_strips(&vec![0, 0]).is_none());
    assert!(random_comic_strips(&vec![]).is_none());
}
