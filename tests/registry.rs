use fyrox_resource::loader::{ResourceLoader, ResourceLoadersContainer};
use fyrox_resource::path::{append_extension, extension, extension_matches};
use fyrox_resource::registry::{RegistryContainer, RegistryEntry, ResourceRegistry};

fn entry(uuid: u128, path: &str) -> RegistryEntry {
    RegistryEntry { uuid, path: path.to_string() }
}

fn loaders() -> ResourceLoadersContainer {
    let mut loaders = ResourceLoadersContainer::new();
    loaders.set(ResourceLoader { extensions: vec!["png".to_string(), "jpg".to_string()], data_type_uuid: 1 });
    loaders.set(ResourceLoader { extensions: vec!["txt".to_string()], data_type_uuid: 2 });
    loaders
}

#[test]
fn registry_round_trip() {
    let mut c = RegistryContainer::new();
    c.insert(7, "a/b.png".to_string());
    c.insert(3, "c.txt".to_string());
    c.insert(0xffff_ffff_ffff_ffff_ffff, "d.txt".to_string());
    let text = c.to_ron().expect("encodes");
    let back = RegistryContainer::from_ron(text.as_bytes()).expect("decodes");
    assert_eq!(back.len(), 3);
    assert_eq!(back.get(7).map(|p| p.as_str()), Some("a/b.png"));
    assert_eq!(back.get(3).map(|p| p.as_str()), Some("c.txt"));
    assert_eq!(back.get(0xffff_ffff_ffff_ffff_ffff).map(|p| p.as_str()), Some("d.txt"));
    assert_eq!(back.to_ron(), Some(text));
}

#[test]
fn registry_rejects_garbage() {
    assert!(RegistryContainer::from_ron(b"not a registry").is_none());
}

#[test]
fn registry_lookups() {
    let mut r = ResourceRegistry::new();
    assert!(r.is_ready);
    assert_eq!(r.register(5, "x.txt".to_string()), None);
    assert_eq!(r.register(2, "x.txt".to_string()), None);
    assert_eq!(r.register(5, "y.txt".to_string()), Some("x.txt".to_string()));
    assert_eq!(r.uuid_to_path(5).map(|p| p.as_str()), Some("y.txt"));
    assert_eq!(r.path_to_uuid("x.txt"), Some(2));
    assert_eq!(r.path_to_uuid("z.txt"), None);
    assert_eq!(r.path_to_uuid_or_random("z.txt", 99), 99);
    assert_eq!(r.path_to_uuid_or_random("y.txt", 99), 5);
    assert_eq!(r.unregister_path("y.txt"), Some(5));
    assert_eq!(r.uuid_to_path(5), None);
    assert_eq!(r.unregister_path("y.txt"), None);
}

#[test]
fn smallest_uuid_wins_for_shared_path() {
    let mut r = ResourceRegistry::new();
    r.register(9, "s.txt".to_string());
    r.register(4, "s.txt".to_string());
    r.register(6, "s.txt".to_string());
    assert_eq!(r.path_to_uuid("s.txt"), Some(4));
}

#[test]
fn scan_skips_unsupported_and_reports_collisions() {
    let files = vec![
        entry(1, "a.png"),
        entry(2, "notes.md"),
        entry(1, "b.TXT"),
        entry(3, "c.jpg"),
    ];
    let (container, collisions) = ResourceRegistry::scan(&loaders(), &files);
    assert_eq!(container.len(), 2);
    assert_eq!(container.get(1).map(|p| p.as_str()), Some("b.TXT"));
    assert_eq!(container.get(3).map(|p| p.as_str()), Some("c.jpg"));
    assert_eq!(container.get(2), None);
    assert_eq!(collisions, vec!["b.TXT".to_string()]);
}

#[test]
fn loader_selection() {
    let l = loaders();
    assert_eq!(l.loader_for("tex/a.PNG"), Some(0));
    assert_eq!(l.loader_for("a.txt"), Some(1));
    assert_eq!(l.loader_for("a.md"), None);
    assert_eq!(l.loader_for(".txt"), None);
    assert!(l.is_supported_resource("x/y.jpg"));
    assert!(!l.is_supported_resource("x.y/z"));
    assert!(l.is_extension_matches_type("a.txt", 2));
    assert!(!l.is_extension_matches_type("a.txt", 1));
}

#[test]
fn loader_replacement() {
    let mut l = loaders();
    let old = l.set(ResourceLoader { extensions: vec!["bmp".to_string()], data_type_uuid: 1 });
    assert_eq!(old.map(|o| o.extensions), Some(vec!["png".to_string(), "jpg".to_string()]));
    assert_eq!(l.len(), 2);
    assert_eq!(l.loader_for("a.png"), None);
    assert_eq!(l.loader_for("a.bmp"), Some(0));
}

#[test]
fn path_helpers() {
    assert_eq!(extension("dir/file.tar.gz"), Some("gz".to_string()));
    assert_eq!(extension("dir.d/file"), None);
    assert_eq!(extension(".hidden"), None);
    assert_eq!(extension("file."), Some(String::new()));
    assert!(extension_matches("PnG", "png"));
    assert!(!extension_matches("png", "pn"));
    assert_eq!(append_extension("a/b.png", "meta"), "a/b.png.meta");
}

#[test]
fn sidecar_uuid_prefers_existing() {
    assert_eq!(fyrox_resource::registry::sidecar_uuid(Some(4), 9), (4, false));
    assert_eq!(fyrox_resource::registry::sidecar_uuid(None, 9), (9, true));
}

#[test]
fn registry_text_keys_are_uuid_strings() {
    let mut c = RegistryContainer::new();
    c.insert(7, "a.txt".to_string());
    let text = c.to_ron().expect("encodes");
    assert!(text.contains("\"00000000-0000-0000-0000-000000000007\""));
    assert!(text.contains("\"a.txt\""));
    assert!(!text.contains('\r'));
    let back = RegistryContainer::from_ron(b"{\"9d873ff4-3126-47e1-a492-7cd8e7168239\": \"b.png\"}").expect("decodes");
    assert_eq!(back.get(0x9d873ff4_3126_47e1_a492_7cd8e7168239).map(|p| p.as_str()), Some("b.png"));
}

#[test]
fn extension_ignores_trailing_separators() {
    assert_eq!(extension("a/b.png/"), Some("png".to_string()));
    assert_eq!(extension("a/b.png//"), Some("png".to_string()));
    assert_eq!(extension("a/.."), None);
    assert_eq!(extension(".."), None);
    assert_eq!(extension("dir.d\\file"), Some("d\\file".to_string()));
    assert_eq!(fyrox_resource::builtin::DataSource::new("a/b.png/", b"x").extension, "png");
}
