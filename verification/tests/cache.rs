use viewer_core::cache::{CachedPage, PageCache, CACHE_BYTES, CACHE_PAGES};
use viewer_core::renderer::RenderKey;

fn key(page: usize, width: u16, height: u16) -> RenderKey {
    RenderKey {
        page,
        width,
        height,
    }
}

fn image(key: RenderKey, image: u64) -> CachedPage {
    CachedPage {
        key,
        result: Ok(image),
    }
}

#[test]
fn sizes_are_counted() {
    assert_eq!(image(key(0, 3, 5), 1).byte_size(), 60);
    assert_eq!(image(key(0, u16::MAX, u16::MAX), 1).byte_size(), 17_179_344_900);
    let failed = CachedPage {
        key: key(0, 3, 5),
        result: Err("broken".to_owned()),
    };
    assert_eq!(failed.byte_size(), 0);
    let mut cache = PageCache::new();
    assert_eq!((cache.len(), cache.size()), (0, 0));
    cache.put(image(key(0, 3, 5), 1));
    cache.put(failed);
    assert_eq!((cache.len(), cache.size()), (1, 0));
}

#[test]
fn pages_are_replaced() {
    let mut cache = PageCache::new();
    assert!(cache.put(image(key(0, 10, 10), 1)).is_empty());
    assert!(cache.put(image(key(1, 10, 10), 2)).is_empty());
    assert_eq!(cache.put(image(key(0, 10, 10), 3)), vec![1]);
    assert_eq!(cache.len(), 2);
    assert_eq!(cache.size(), 800);
    assert_eq!(cache.get(key(0, 10, 10)), Some(Ok(3)));
    assert_eq!(cache.get(key(0, 10, 11)), None);
}

#[test]
fn at_most_so_many_pages_are_kept() {
    let mut cache = PageCache::new();
    for page in 0..CACHE_PAGES {
        assert!(cache.put(image(key(page, 1, 1), page as u64)).is_empty());
    }
    assert_eq!(cache.get(key(0, 1, 1)), Some(Ok(0)));
    assert_eq!(cache.put(image(key(1000, 1, 1), 1000)), vec![1]);
    assert_eq!(cache.get(key(0, 1, 1)), Some(Ok(0)));
    assert_eq!(cache.get(key(1, 1, 1)), None);
    assert_eq!(cache.len(), CACHE_PAGES);
}

#[test]
fn at_most_so_many_bytes_are_kept() {
    let mut cache = PageCache::new();
    for page in 0..3 {
        assert!(cache.put(image(key(page, 4096, 2048), page as u64)).is_empty());
    }
    assert_eq!(cache.size(), CACHE_BYTES);
    assert_eq!(cache.put(image(key(3, 1, 1), 3)), vec![0]);
    assert_eq!(cache.put(image(key(4, 8192, 3071), 4)), vec![1, 2]);
    assert_eq!(cache.len(), 2);
    assert!(cache.size() <= CACHE_BYTES);
}

#[test]
fn pages_that_are_too_large_are_not_kept() {
    let mut cache = PageCache::new();
    cache.put(image(key(0, 1, 1), 1));
    assert_eq!(cache.put(image(key(1, 8192, 8192), 2)), vec![1, 2]);
    assert_eq!((cache.len(), cache.size()), (0, 0));
}

#[test]
fn latest_image_of_a_page_is_found() {
    let mut cache = PageCache::new();
    assert_eq!(cache.latest(0), None);
    cache.put(image(key(0, 10, 10), 1));
    cache.put(image(key(0, 20, 20), 2));
    cache.put(image(key(1, 20, 20), 3));
    assert_eq!(cache.latest(0), Some(2));
    cache.get(key(0, 10, 10));
    assert_eq!(cache.latest(0), Some(1));
    cache.put(CachedPage {
        key: key(0, 30, 30),
        result: Err("broken".to_owned()),
    });
    assert_eq!(cache.latest(0), None);
    assert_eq!(cache.get(key(0, 30, 30)), Some(Err("broken".to_owned())));
}

#[test]
fn everything_is_given_up() {
    let mut cache = PageCache::new();
    cache.put(image(key(0, 10, 10), 7));
    cache.put(CachedPage {
        key: key(1, 10, 10),
        result: Err("broken".to_owned()),
    });
    cache.put(image(key(2, 10, 10), 9));
    assert_eq!(cache.clear(), vec![7, 9]);
    assert_eq!((cache.len(), cache.size()), (0, 0));
    assert_eq!(cache.clear(), Vec::<u64>::new());
}
