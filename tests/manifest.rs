use streaming_shape_tools::manifest::ManifestRoot;

#[test]
fn manifest_takes_first_frame_dimensions() {
    let mut m = ManifestRoot::new();
    assert_eq!((m.width, m.height, m.frames.len()), (0, 0, 0));
    m.add_frame(32, 16, "a/HERO_0.png".to_string(), Some("HERO".to_string()));
    m.add_frame(8, 8, "a/HERO_1.png".to_string(), None);
    assert_eq!((m.width, m.height), (32, 16));
    assert_eq!(m.frames.len(), 2);
    assert_eq!(m.frames[0].path, "a/HERO_0.png");
    assert_eq!(m.frames[0].frame_name.as_deref(), Some("HERO"));
    assert_eq!(m.frames[1].frame_name, None);
}
