use draffity_services::exporter::media_bundle::{extract_media_ids, MediaBundle};

#[test]
fn extract_finds_single_id() {
    let html = r#"<p>Hello</p><img data-media-id="abc123" alt="x"/><p>tail</p>"#;
    assert_eq!(extract_media_ids(html), vec!["abc123"]);
}

#[test]
fn extract_finds_multiple_ids_in_order() {
    let html = r#"<img data-media-id="a"/><p>...</p><img data-media-id="b" alt="x">"#;
    assert_eq!(extract_media_ids(html), vec!["a", "b"]);
}

#[test]
fn extract_skips_empty_ids() {
    let html = r#"<img data-media-id="" alt="x">"#;
    assert!(extract_media_ids(html).is_empty());
}

#[test]
fn extract_returns_empty_for_html_without_images() {
    assert!(extract_media_ids("<p>no images here</p>").is_empty());
}

#[test]
fn bundle_round_trips_get() {
    let mut b = MediaBundle::new();
    b.insert("id1", "image/png", vec![1, 2, 3]);
    let (mime, bytes) = b.get("id1").unwrap();
    assert_eq!(mime, "image/png");
    assert_eq!(bytes, &[1, 2, 3]);
    assert!(b.get("missing").is_none());
}

#[test]
fn bundle_insert_replaces_existing_id() {
    let mut b = MediaBundle::new();
    assert!(b.is_empty());
    b.insert("id1", "image/png", vec![1]);
    b.insert("id2", "image/jpeg", vec![2]);
    b.insert("id1", "image/gif", vec![3, 4]);
    assert!(!b.is_empty());
    let (mime, bytes) = b.get("id1").unwrap();
    assert_eq!(mime, "image/gif");
    assert_eq!(bytes, &[3, 4]);
    let all = b.iter();
    assert_eq!(all.len(), 2);
    assert_eq!(all[0].0, "id1");
    assert_eq!(all[1].0, "id2");
}

#[test]
fn extract_stops_at_unclosed_attribute() {
    let html = r#"<img data-media-id="a"/><img data-media-id="b"#;
    assert_eq!(extract_media_ids(html), vec!["a"]);
}

#[test]
fn iteration_follows_first_insertion() {
    let mut b = MediaBundle::new();
    b.insert("z", "image/png", vec![1]);
    b.insert("a", "image/jpeg", vec![2]);
    b.insert("z", "image/gif", vec![3]);
    b.insert("m", "image/png", vec![4]);
    let items: Vec<(String, String, Vec<u8>)> =
        b.iter().into_iter().map(|(i, m, x)| (i.to_string(), m.to_string(), x.to_vec())).collect();
    assert_eq!(
        items,
        vec![
            ("z".to_string(), "image/gif".to_string(), vec![3]),
            ("a".to_string(), "image/jpeg".to_string(), vec![2]),
            ("m".to_string(), "image/png".to_string(), vec![4]),
        ]
    );
}
