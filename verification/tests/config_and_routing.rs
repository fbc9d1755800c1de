use landing::config::{ConfigInner, FileConfig, TailwindConfig};
use landing::routing::{is_hidden_template, page_vars, route_request, Route};
use landing::scripts::Scripts;
use landing::templates::Templates;
use landing::uri::Uri;

fn strings(v: &[&str]) -> Vec<String> {
    v.iter().map(|s| s.to_string()).collect()
}

/// The configuration of the README: routes under `/`, assets under `/assets`.
fn readme_config() -> ConfigInner {
    let mut c = ConfigInner::new(
        "./routes".to_string(),
        "/".to_string(),
        "index".to_string(),
        Some("./config.d/".to_string()),
        FileConfig::new(strings(&[".html.j2", ".html"]), None, None),
        FileConfig::new(strings(&[".sh"]), None, None),
        FileConfig::new(vec![], Some("./assets".to_string()), Some("/assets".to_string())),
        TailwindConfig::new(true, true),
    );
    c.complete();
    c
}

fn uri(s: &str) -> Uri {
    Uri::parse(s).expect("valid uri")
}

#[test]
fn default_config() {
    let c = ConfigInner::default();
    assert_eq!(c.get_index_word(), "index");
    assert_eq!(c.get_templates_path(), ".");
    assert_eq!(c.get_files_path(), ".");
    assert_eq!(c.get_templates_endpoint(), "/");
    assert_eq!(c.get_include(), &None);
    assert!(c.get_tailwind_enable());
    assert!(c.get_tailwind_check_rendered());
    assert!(c.scans_rendered_output());
    assert_eq!(c.get_tailwind_endpoint(), "/tailwind.css");
    assert_eq!(
        c.get_tailwind_endpoint(),
        format!("{}tailwind.css", c.get_files_endpoint())
    );
    assert!(c.get_templates_suffixes().is_empty());
    assert_eq!(ConfigInner::default_index_word(), "index");
    assert_eq!(ConfigInner::default_path(), ".");
    assert_eq!(ConfigInner::default_endpoint(), "/");
    assert!(TailwindConfig::default_enable());
    assert!(TailwindConfig::default_check_rendered());
}

#[test]
fn completing_a_config() {
    let c = readme_config();
    assert_eq!(c.get_templates_endpoint(), "/");
    assert_eq!(c.get_scripts_endpoint(), "/");
    assert_eq!(c.get_files_endpoint(), "/assets/");
    assert_eq!(c.get_tailwind_endpoint(), "/assets/tailwind.css");
    assert_eq!(
        c.get_templates_suffixes(),
        &strings(&[".html.j2", ".html", "/index.html.j2", "/index.html"])
    );
    assert_eq!(c.get_scripts_suffixes(), &strings(&[".sh", "/index.sh"]));
    assert_eq!(c.get_templates_path(), "./routes");
    assert_eq!(c.get_scripts_path(), "./routes");
    assert_eq!(c.get_files_path(), "./assets");
    assert_eq!(c.get_include(), &Some("./config.d/".to_string()));
}

#[test]
fn completing_normalizes_odd_endpoints() {
    let mut c = ConfigInner::new(
        ".".to_string(),
        "site//".to_string(),
        "home".to_string(),
        None,
        FileConfig::new(strings(&[".j2"]), None, Some("pages".to_string())),
        FileConfig::default(),
        FileConfig::default(),
        TailwindConfig::default(),
    );
    c.complete();
    assert_eq!(c.get_templates_endpoint(), "/pages/");
    assert_eq!(c.get_scripts_endpoint(), "/site/");
    assert_eq!(c.get_files_endpoint(), "/site/");
    assert_eq!(c.get_tailwind_endpoint(), "/site/tailwind.css");
    assert_eq!(c.get_templates_suffixes(), &strings(&[".j2", "/home.j2"]));
}

#[test]
fn template_names_of_requests() {
    let c = readme_config();
    assert_eq!(c.get_template_name(&uri("/foo")), Some("/foo".to_string()));
    assert_eq!(c.get_template_name(&uri("/foo/")), Some("/foo".to_string()));
    assert_eq!(c.get_template_name(&uri("//foo//bar")), Some("/foo/bar".to_string()));
    assert_eq!(c.get_template_name(&uri("/")), Some("".to_string()));
    assert_eq!(c.get_template_name(&uri("/foo?x=1")), Some("/foo".to_string()));
}

#[test]
fn template_names_outside_the_endpoint() {
    let mut c = ConfigInner::new(
        ".".to_string(),
        "/".to_string(),
        "index".to_string(),
        None,
        FileConfig::new(vec![], None, Some("/pages".to_string())),
        FileConfig::default(),
        FileConfig::default(),
        TailwindConfig::default(),
    );
    c.complete();
    assert_eq!(c.get_template_name(&uri("/other")), None);
    assert_eq!(c.get_template_name(&uri("/pages")), Some("".to_string()));
    assert_eq!(c.get_template_name(&uri("/pages/a/b")), Some("/a/b".to_string()));
}

#[test]
fn asset_uris_of_requests() {
    let c = readme_config();
    let a = c.get_files_uri(&uri("/assets/styles.css")).expect("asset");
    assert_eq!(a.as_str(), "/styles.css");
    let q = c.get_files_uri(&uri("/assets/x.png?v=2")).expect("asset");
    assert_eq!(q.as_str(), "/x.png?v=2");
    assert!(c.get_files_uri(&uri("/other/x.png")).is_none());
    assert!(c.get_files_uri(&uri("/assets-old.css")).is_none());
    assert!(c.get_files_uri(&uri("/assetsx/y.css")).is_none());
}

#[test]
fn asset_uris_under_root_endpoint() {
    let c = ConfigInner::default();
    let a = c.get_files_uri(&uri("/x/y.png")).expect("asset");
    assert_eq!(a.as_str(), "/x/y.png");
}

#[test]
fn template_value_lookup() {
    let c = readme_config();
    assert_eq!(c.get_value("tailwind_href"), Some("/assets/tailwind.css".to_string()));
    assert_eq!(c.get_value("other"), None);
    let (texts, tomls) = page_vars(&c, &vec![], None);
    assert_eq!(texts, vec![("tailwind_href".to_string(), "/assets/tailwind.css".to_string())]);
    assert!(tomls.is_empty());
    let includes = vec![("site".to_string(), "title = \"Home\"".to_string())];
    let (texts, tomls) = page_vars(&c, &includes, Some("n = 1"));
    assert_eq!(
        texts,
        vec![
            ("tailwind_href".to_string(), "/assets/tailwind.css".to_string()),
            ("stdout".to_string(), "n = 1".to_string()),
        ]
    );
    assert_eq!(
        tomls,
        vec![
            ("site".to_string(), "title = \"Home\"".to_string()),
            ("script".to_string(), "n = 1".to_string()),
        ]
    );
}

#[test]
fn replacing_a_config_only_when_changed() {
    let mut c = readme_config();
    assert!(!c.replace_if_changed(readme_config()));
    assert!(c.same_as(&readme_config()));
    let other = ConfigInner::default();
    assert!(!c.same_as(&other));
    assert!(c.replace_if_changed(ConfigInner::default()));
    assert!(c.same_as(&ConfigInner::default()));
}

#[test]
fn uri_reading() {
    let u = uri("/a/b?x=1");
    assert_eq!(u.as_str(), "/a/b?x=1");
    assert_eq!(u.path(), "/a/b");
    assert_eq!(u.to_text(), "/a/b?x=1");
    assert!(u.equals_str("/a/b?x=1"));
    assert!(!u.equals_str("/a/b"));
    let abs = uri("http://example.com");
    assert_eq!(abs.path(), "/");
    assert_eq!(abs.to_text(), "http://example.com/");
    let upper = uri("HTTP://example.com/a");
    assert_eq!(upper.to_text(), "http://example.com/a");
    assert!(upper.equals_str("http://example.com/a"));
    assert!(Uri::parse("not a uri").is_none());
    assert!(Uri::parse("").is_none());
}

#[test]
fn hidden_template_names() {
    assert!(is_hidden_template("/_layout"));
    assert!(is_hidden_template("_layout"));
    assert!(is_hidden_template("/dir/_partial"));
    assert!(!is_hidden_template("/foo"));
    assert!(!is_hidden_template("/foo_bar"));
    assert!(!is_hidden_template(""));
}

fn readme_templates() -> Templates {
    let mut t = Templates::new();
    let sfx = strings(&[".html.j2", ".html", "/index.html.j2", "/index.html"]);
    for (file, body) in [
        ("index.html", "home"),
        ("foo.html.j2", "foo page"),
        ("_layout.html.j2", "layout"),
        ("bar/index.html.j2", "bar index"),
    ] {
        let names = landing::templates::names_for_file(file, &sfx).expect("template");
        assert_eq!(t.add_file(&names, body), None);
    }
    t
}

#[test]
fn routing_readme_layout() {
    let c = readme_config();
    let t = readme_templates();
    let sc = Scripts::new();
    match route_request(&c, &t, &sc, &uri("/")) {
        Route::Template { name, script } => {
            assert_eq!(name, "");
            assert_eq!(script, None);
        },
        _ => panic!("/ should be the index template"),
    }
    match route_request(&c, &t, &sc, &uri("/foo")) {
        Route::Template { name, script } => {
            assert_eq!(name, "/foo");
            assert_eq!(script, None);
        },
        _ => panic!("/foo should be a template"),
    }
    match route_request(&c, &t, &sc, &uri("/foo/")) {
        Route::Template { name, script } => {
            assert_eq!(name, "/foo");
            assert_eq!(script, None);
        },
        _ => panic!("/foo/ should be a template"),
    }
    match route_request(&c, &t, &sc, &uri("/bar")) {
        Route::Template { name, script } => {
            assert_eq!(name, "/bar");
            assert_eq!(script, None);
        },
        _ => panic!("/bar should be the bar index"),
    }
    assert!(matches!(route_request(&c, &t, &sc, &uri("/assets/tailwind.css")), Route::Tailwind));
    match route_request(&c, &t, &sc, &uri("/assets/styles.css")) {
        Route::Asset(a) => assert_eq!(a.as_str(), "/styles.css"),
        _ => panic!("assets should be served as files"),
    }
    assert!(matches!(route_request(&c, &t, &sc, &uri("/_layout")), Route::NotFound));
    assert!(matches!(route_request(&c, &t, &sc, &uri("/missing")), Route::NotFound));
}

#[test]
fn tailwind_route_off_when_disabled() {
    let mut c = ConfigInner::new(
        ".".to_string(),
        "/".to_string(),
        "index".to_string(),
        None,
        FileConfig::default(),
        FileConfig::default(),
        FileConfig::new(vec![], None, Some("/assets".to_string())),
        TailwindConfig::new(false, true),
    );
    c.complete();
    assert!(!c.scans_rendered_output());
    let t = Templates::new();
    let sc = Scripts::new();
    match route_request(&c, &t, &sc, &uri("/assets/tailwind.css")) {
        Route::Asset(a) => assert_eq!(a.as_str(), "/tailwind.css"),
        _ => panic!("with tailwind off the stylesheet is just a file"),
    }
}

#[test]
fn routing_with_scripts() {
    let c = readme_config();
    let t = readme_templates();
    let mut sc = Scripts::new();
    let sfx = strings(&[".sh", "/index.sh"]);
    let names = landing::templates::names_for_file("foo.sh", &sfx).expect("script");
    sc.add_file(&names, "foo.sh");
    assert_eq!(sc.find("/foo"), Some("foo.sh".to_string()));
    assert_eq!(sc.find("/bar"), None);
    match route_request(&c, &t, &sc, &uri("/foo")) {
        Route::Template { name, script } => {
            assert_eq!(name, "/foo");
            assert_eq!(script, Some("foo.sh".to_string()));
        }
        _ => panic!("/foo should be a template with its script"),
    }
    match route_request(&c, &t, &sc, &uri("/")) {
        Route::Template { script, .. } => assert_eq!(script, None),
        _ => panic!("/ should be a template"),
    }
}

#[test]
fn later_scripts_win() {
    let mut sc = Scripts::new();
    sc.add_file(&strings(&["/a"]), "one.sh");
    sc.add_file(&strings(&["/a", "/b"]), "two.sh");
    assert_eq!(sc.find("/a"), Some("two.sh".to_string()));
    assert_eq!(sc.find("/b"), Some("two.sh".to_string()));
}

#[test]
fn script_names_of_requests() {
    let c = readme_config();
    assert_eq!(c.get_script_name(&uri("/foo/")), Some("/foo".to_string()));
    assert_eq!(c.get_script_name(&uri("/")), Some("".to_string()));
}

#[test]
fn same_segments_same_template() {
    let c = readme_config();
    let expected = Some("/docs/intro".to_string());
    assert_eq!(c.get_template_name(&uri("/docs/intro")), expected);
    assert_eq!(c.get_template_name(&uri("//docs//intro/")), expected);
    assert_eq!(c.get_template_name(&uri("/docs/intro//?page=2")), expected);
}
