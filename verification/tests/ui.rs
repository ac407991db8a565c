use flb::ui::{long_cache, normalize_path, ui_answer, UiAnswer};

#[test]
fn root_maps_to_index() {
    assert_eq!(normalize_path("/"), "index.html");
    assert_eq!(normalize_path(""), "index.html");
    assert_eq!(normalize_path("/assets/app.js"), "assets/app.js");
}

#[test]
fn spa_fallback_only_for_pages() {
    assert!(matches!(ui_answer("/assets/app.js", true, true), UiAnswer::File(p) if p == "assets/app.js"));
    assert!(matches!(ui_answer("/hosts/1", false, true), UiAnswer::Index));
    assert!(matches!(ui_answer("/missing.js", false, true), UiAnswer::NotFound));
    assert!(matches!(ui_answer("/hosts", false, false), UiAnswer::NotFound));
    assert!(matches!(ui_answer("///", true, true), UiAnswer::File(p) if p == "index.html"));
    assert!(long_cache("assets/app.js"));
    assert!(!long_cache("index.html"));
}

#[test]
fn extension_follows_std_paths() {
    // the answers agree with std::path::Path::extension
    for (path, has) in [
        ("/a/b.js", true),
        ("/x/a.", true),
        ("/app/page", false),
        ("/.hidden", false),
        ("/a/..", false),
        ("/a/b.d/", true),
        ("/a/b.d/.", true),
        ("/v1.2/page", false),
    ] {
        let normalized = normalize_path(path);
        assert_eq!(std::path::Path::new(&normalized).extension().is_some(), has, "{path}");
        let answer = ui_answer(path, false, true);
        if has {
            assert!(matches!(answer, UiAnswer::NotFound), "{path}");
        } else {
            assert!(matches!(answer, UiAnswer::Index), "{path}");
        }
    }
}
