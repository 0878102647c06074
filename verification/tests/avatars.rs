//! Sender pictures.

use rustle::avatars::{
    accepted, cache_contents, cache_is_fresh, cache_path, cached_image, favicon_urls, fetch,
    gravatar_url, normalized, FetchStep, Loaded, CACHE_TTL_SECONDS, MAX_BYTES,
};
use rustle::ui::avatar_loader::{is_wanted, AvatarCache, LoadAction};

#[test]
fn urls() {
    assert!(gravatar_url("ada@example.com")
        .unwrap()
        .starts_with("https://gravatar.com/avatar/"));
    assert!(gravatar_url("nope").is_none());
    assert!(favicon_urls("ada@gmail.com").is_empty());
    assert_eq!(favicon_urls("ada@example.com").len(), 2);
}

#[test]
fn a_hash_is_the_one_of_the_address() {
    let url = gravatar_url("abc@").unwrap();
    let middle = url
        .trim_start_matches("https://gravatar.com/avatar/")
        .trim_end_matches("?s=128&d=404");
    assert_eq!(middle.len(), 64);
    assert!(middle.chars().all(|c| c.is_ascii_hexdigit()));
    assert_ne!(gravatar_url("a@b"), gravatar_url("a@c"));
    assert_eq!(cache_path("abc@"), format!("avatars/{middle}"));
    assert_eq!(
        cache_path("abc"),
        "avatars/ba7816bf8f01cfea414140de5dae2223b00361a396177a9cb410ff61f20015ad"
    );
}

#[test]
fn icons_are_asked_of_two_places() {
    assert_eq!(
        favicon_urls("ada@example.com"),
        vec![
            "https://icons.duckduckgo.com/ip3/example.com.ico",
            "https://www.google.com/s2/favicons?domain=example.com&sz=128"
        ]
    );
    assert!(favicon_urls("ada@localhost").is_empty());
    assert_eq!(normalized("  Ada@Example.COM "), "ada@example.com");
}

#[test]
fn cache_records_a_miss() {
    assert_eq!(
        cache_path("x@y.z"),
        format!("avatars/{}", &gravatar_url("x@y.z").unwrap()[28..92])
    );
    let written = cache_contents(&None);
    assert_eq!(written.len(), 0);
    assert!(cached_image(Some(written), true).is_none());
}

#[test]
fn the_cache_keeps_a_picture_for_a_month() {
    let image = Some(vec![1u8, 2, 3]);
    assert_eq!(cached_image(Some(cache_contents(&image)), true), image);
    assert_eq!(cached_image(Some(vec![1]), false), None);
    assert_eq!(cached_image(None, true), None);
    assert!(cache_is_fresh(Some(CACHE_TTL_SECONDS - 1)));
    assert!(!cache_is_fresh(Some(CACHE_TTL_SECONDS)));
    assert!(!cache_is_fresh(None));
}

fn icon(width: u32) -> Option<Loaded> {
    Some(Loaded {
        data: vec![width as u8],
        width,
    })
}

#[test]
fn gravatar_comes_first_and_the_largest_icon_wins() {
    let address = "ada@example.com";
    let step = fetch(address, &[]);
    assert_eq!(step, FetchStep::Load(gravatar_url(address).unwrap()));
    assert_eq!(fetch(address, &[icon(1)]), FetchStep::Done(Some(vec![1])));
    let urls = favicon_urls(address);
    assert_eq!(fetch(address, &[None]), FetchStep::Load(urls[0].clone()));
    // Big enough: the second place is not asked.
    assert_eq!(
        fetch(address, &[None, icon(64)]),
        FetchStep::Done(Some(vec![64]))
    );
    assert_eq!(
        fetch(address, &[None, icon(16)]),
        FetchStep::Load(urls[1].clone())
    );
    assert_eq!(
        fetch(address, &[None, icon(16), icon(32)]),
        FetchStep::Done(Some(vec![32]))
    );
    assert_eq!(
        fetch(address, &[None, icon(16), icon(16)]),
        FetchStep::Done(Some(vec![16]))
    );
    assert_eq!(fetch(address, &[None, None, None]), FetchStep::Done(None));
    assert_eq!(fetch("no-at", &[]), FetchStep::Done(None));
}

#[test]
fn replies_are_bounded() {
    assert_eq!(accepted(vec![], Some(9)), None);
    assert_eq!(accepted(vec![7], None), None);
    assert_eq!(accepted(vec![7; MAX_BYTES + 1], Some(9)), None);
    assert_eq!(accepted(vec![7; MAX_BYTES], Some(9)).unwrap().width, 9);
}

#[test]
fn a_picture_is_asked_for_once() {
    let mut cache = AvatarCache::new();
    assert_eq!(cache.load("", true), LoadAction::Nothing);
    assert_eq!(cache.load("a@b.c", false), LoadAction::Nothing);
    assert_eq!(cache.load(" A@b.c", true), LoadAction::Fetch);
    assert_eq!(cache.load("a@b.c", true), LoadAction::Wait);
    cache.deliver("a@b.c", true);
    assert_eq!(cache.load("a@b.c", true), LoadAction::Show);
    assert_eq!(cache.load("d@e.f", true), LoadAction::Fetch);
    cache.deliver("d@e.f", false);
    assert_eq!(cache.load("d@e.f", true), LoadAction::Nothing);
    for i in 0..499 {
        cache.deliver(&format!("{i}@x.y"), false);
    }
    assert_eq!(cache.load("a@b.c", true), LoadAction::Fetch);
    assert!(is_wanted("a@b.c", "a@b.c"));
    assert!(!is_wanted("a@b.c", "d@e.f"));
}
