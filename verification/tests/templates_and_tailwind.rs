use std::hash::Hasher;
use landing::tailwind::{is_traceable, Tailwind, TailwindResponse};
use landing::templates::{include_name, names_for_file, template_context, TemplatePage, Templates};
use landing::watch::{keep_watching, reload_outcome, step_for, ReloadOutcome, WatchEvent, WatchStep};

fn strings(v: &[&str]) -> Vec<String> {
    v.iter().map(|s| s.to_string()).collect()
}

#[test]
fn names_of_template_files() {
    let sfx = strings(&[".html.j2", ".html", "/index.html.j2", "/index.html"]);
    assert_eq!(
        names_for_file("foo.html.j2", &sfx),
        Some(strings(&["/foo.html.j2", "/foo"]))
    );
    assert_eq!(
        names_for_file("index.html", &sfx),
        Some(strings(&["/index.html", "/index", ""]))
    );
    assert_eq!(
        names_for_file("foo/index.html.j2", &sfx),
        Some(strings(&["/foo/index.html.j2", "/foo/index", "/foo"]))
    );
    assert_eq!(names_for_file("foo.sh", &sfx), None);
    assert_eq!(names_for_file("styles.css", &vec![]), None);
}

#[test]
fn loading_and_rendering_templates() {
    let mut t = Templates::new();
    let names = strings(&["/page.html.j2", "/page"]);
    assert_eq!(t.add_file(&names, "Hello {{ tailwind_href }}!"), None);
    assert!(t.has_template("/page"));
    assert!(t.has_template("/page.html.j2"));
    assert!(!t.has_template("/other"));
    let vars = vec![("tailwind_href".to_string(), "/assets/tailwind.css".to_string())];
    let none: Vec<(String, String)> = vec![];
    match t.render_template("/page", &vars, &none) {
        TemplatePage::Html(h) => assert_eq!(h, "Hello /assets/tailwind.css!"),
        TemplatePage::InternalError => panic!("template should render"),
    }
    assert!(matches!(t.render_template("/other", &vars, &none), TemplatePage::InternalError));
    assert!(matches!(t.try_render_template("/page", &vars, &none), Some(TemplatePage::Html(_))));
    assert!(matches!(t.try_render_template("/other", &vars, &none), Some(TemplatePage::InternalError)));
}

#[test]
fn broken_template_stops_loading() {
    let mut t = Templates::new();
    let names = strings(&["/bad.html.j2", "/bad"]);
    assert_eq!(t.add_file(&names, "{% if %}"), Some(0));
    assert!(!t.has_template("/bad.html.j2"));
    assert!(!t.has_template("/bad"));
}

#[test]
fn failing_render_is_reported() {
    let mut t = Templates::new();
    let names = strings(&["/boom"]);
    assert_eq!(t.add_file(&names, "{{ nothing_here() }}"), None);
    assert!(t.try_render_template("/boom", &vec![], &vec![]).is_none());
}

#[test]
fn reloading_a_template_replaces_it() {
    let mut t = Templates::new();
    let names = strings(&["/a"]);
    assert_eq!(t.add_file(&names, "one"), None);
    assert_eq!(t.add_file(&names, "two"), None);
    match t.render_template("/a", &vec![], &vec![]) {
        TemplatePage::Html(h) => assert_eq!(h, "two"),
        _ => panic!("template should render"),
    }
}

#[test]
fn finding_templates_with_suffixes() {
    let mut t = Templates::new();
    assert_eq!(t.add_file(&strings(&["docs/index.html", "about.html"]), "x"), None);
    assert_eq!(t.find_template("docs"), Some("docs/index.html".to_string()));
    assert_eq!(t.find_template("about"), Some("about.html".to_string()));
    assert_eq!(t.find_template("nothing"), None);
}

fn etag_of(tw: &mut Tailwind) -> String {
    tw.get_etag()
}

#[test]
fn tailwind_etag_is_quoted_hash_of_bundle() {
    let mut tw = Tailwind::new();
    tw.add_content(r#"<div class="p-4 text-center">x</div>"#);
    let (etag, bundle) = tw.get_bundle();
    assert!(etag.starts_with('"') && etag.ends_with('"'));
    let mut h = std::collections::hash_map::DefaultHasher::new();
    h.write(bundle.as_bytes());
    assert_eq!(etag, format!("\"{:x}\"", h.finish()));
    assert!(bundle.contains("p-4"));
}

#[test]
fn tailwind_same_content_twice_keeps_etag() {
    let mut tw = Tailwind::default();
    tw.add_content(r#"<p class="m-2">a</p>"#);
    let first = etag_of(&mut tw);
    tw.add_content(r#"<p class="m-2">a</p>"#);
    assert_eq!(etag_of(&mut tw), first);
    tw.add_content(r#"<p class="m-8">b</p>"#);
    assert_ne!(etag_of(&mut tw), first);
}

#[test]
fn tailwind_unknown_classes_keep_bundle() {
    let mut tw = Tailwind::new();
    let (etag, bundle) = tw.get_bundle();
    tw.add_content(r#"<p class="not-a-tailwind-thing">a</p>"#);
    assert_eq!(tw.get_bundle(), (etag, bundle));
}

#[test]
fn tailwind_conditional_requests() {
    let mut tw = Tailwind::new();
    tw.add_content(r#"<p class="m-2">a</p>"#);
    let etag = tw.get_etag();
    assert!(matches!(tw.try_call(Some(etag.as_bytes()), None), TailwindResponse::NotModified));
    assert!(matches!(
        tw.try_call(None, Some(b"\"other\"".as_slice())),
        TailwindResponse::PreconditionFailed
    ));
    match tw.try_call(Some(b"\"stale\"".as_slice()), Some(etag.as_bytes())) {
        TailwindResponse::Stylesheet { etag: e, bundle } => {
            assert_eq!(e, etag);
            assert!(bundle.contains("m-2"));
        }
        _ => panic!("stylesheet expected"),
    }
    match tw.respond(None, None) {
        Some(TailwindResponse::Stylesheet { etag: e, .. }) => assert_eq!(e, etag),
        _ => panic!("stylesheet expected"),
    }
    assert!(tw.can_finish());
}

#[test]
fn tailwind_finish_returns_current_etag() {
    let mut tw = Tailwind::new();
    tw.add_content(r#"<b class="font-bold">x</b>"#);
    let e1 = tw.finish();
    let e2 = tw.finish();
    assert_eq!(e1, e2);
    assert_eq!(tw.get_bundle().0, e1);
}

#[test]
fn watcher_decisions() {
    assert!(matches!(step_for(&WatchEvent::Modified), WatchStep::Reload));
    assert!(matches!(step_for(&WatchEvent::Other), WatchStep::Ignore));
    assert!(matches!(step_for(&WatchEvent::Failed), WatchStep::ReportError));
    assert!(!keep_watching(&ReloadOutcome::Replaced));
    assert!(keep_watching(&ReloadOutcome::Unchanged));
    assert!(keep_watching(&ReloadOutcome::Failed));
    assert!(matches!(reload_outcome(false, true), ReloadOutcome::Failed));
    assert!(matches!(reload_outcome(true, true), ReloadOutcome::Replaced));
    assert!(matches!(reload_outcome(true, false), ReloadOutcome::Unchanged));
}

#[test]
fn rendering_with_toml_input() {
    let mut t = Templates::new();
    let names = strings(&["/p"]);
    assert_eq!(
        t.add_file(&names, "{{ site.title }}/{{ script.n }}/{{ stdout }}|{{ broken }}"),
        None
    );
    let texts = vec![("stdout".to_string(), "raw".to_string())];
    let tomls = vec![
        ("site".to_string(), "title = \"Home\"".to_string()),
        ("script".to_string(), "n = 7".to_string()),
        ("broken".to_string(), "= nope".to_string()),
    ];
    match t.render_template("/p", &texts, &tomls) {
        TemplatePage::Html(h) => assert_eq!(h, "Home/7/raw|"),
        _ => panic!("template should render"),
    }
}

#[test]
fn text_variables_win_over_documents() {
    let mut t = Templates::new();
    assert_eq!(t.add_file(&strings(&["/q"]), "{{ x }}"), None);
    let texts = vec![("x".to_string(), "text".to_string())];
    let tomls = vec![("x".to_string(), "a = 1".to_string())];
    match t.render_template("/q", &texts, &tomls) {
        TemplatePage::Html(h) => assert_eq!(h, "text"),
        _ => panic!("template should render"),
    }
}

#[test]
fn include_file_names() {
    assert_eq!(include_name("site.toml"), Some("site".to_string()));
    assert_eq!(include_name("a.b.toml"), Some("a.b".to_string()));
    assert_eq!(include_name(".toml"), None);
    assert_eq!(include_name("notes.txt"), None);
}

#[test]
fn prose_is_never_traced() {
    assert!(!is_traceable("prose"));
    assert!(!is_traceable("md:prose"));
    assert!(!is_traceable("w-[10px]"));
    assert!(is_traceable("p-4"));
    assert!(!is_traceable("p-4 m-2"));
    let mut tw = Tailwind::new();
    let (etag, bundle) = tw.get_bundle();
    tw.add_content(r#"<article class="prose md:prose lg:prose-xl">x</article>"#);
    assert_eq!(tw.get_bundle(), (etag, bundle));
    tw.add_content(r#"<article class="prose p-4">x</article>"#);
    assert!(tw.get_bundle().1.contains("p-4"));
}

#[test]
fn config_watch_stops_at_first_changed_reload() {
    // (event, loaded, changed) as the configuration watcher meets them.
    let run = [
        (WatchEvent::Other, true, true),
        (WatchEvent::Failed, false, false),
        (WatchEvent::Modified, false, false),
        (WatchEvent::Modified, true, false),
        (WatchEvent::Modified, true, true),
        (WatchEvent::Modified, true, true),
    ];
    let mut stopped_at = None;
    for (i, (event, loaded, changed)) in run.iter().enumerate() {
        let goes_on = match step_for(event) {
            WatchStep::Reload => keep_watching(&reload_outcome(*loaded, *changed)),
            _ => true,
        };
        if !goes_on {
            stopped_at = Some(i);
            break;
        }
    }
    assert_eq!(stopped_at, Some(4));
}

#[test]
fn template_context_merges_variables() {
    let texts = vec![
        ("a".to_string(), "first".to_string()),
        ("b".to_string(), "bee".to_string()),
        ("a".to_string(), "second".to_string()),
    ];
    let tomls = vec![
        ("b".to_string(), "x = 1".to_string()),
        ("c".to_string(), "x = 1".to_string()),
        ("c".to_string(), "x = 2".to_string()),
        ("d".to_string(), "= broken".to_string()),
        ("e".to_string(), "y = 3".to_string()),
        ("e".to_string(), "= broken".to_string()),
    ];
    let ctx = template_context(&texts, &tomls);
    let mut text_pairs: Vec<(String, String)> = ctx.texts.clone();
    text_pairs.sort();
    assert_eq!(
        text_pairs,
        vec![
            ("a".to_string(), "second".to_string()),
            ("b".to_string(), "bee".to_string())
        ]
    );
    let mut docs: Vec<(String, String)> = ctx
        .documents
        .iter()
        .map(|(k, d)| (k.clone(), d.source().to_string()))
        .collect();
    docs.sort();
    assert_eq!(
        docs,
        vec![
            ("c".to_string(), "x = 2".to_string()),
            ("e".to_string(), "y = 3".to_string())
        ]
    );
}

#[test]
fn later_documents_win_and_broken_ones_are_ignored() {
    let mut t = Templates::new();
    assert_eq!(t.add_file(&strings(&["/r"]), "{{ c.x }}|{{ e.y }}|{{ d }}"), None);
    let tomls = vec![
        ("c".to_string(), "x = 1".to_string()),
        ("c".to_string(), "x = 2".to_string()),
        ("e".to_string(), "y = 3".to_string()),
        ("e".to_string(), "= broken".to_string()),
        ("d".to_string(), "= broken".to_string()),
    ];
    match t.render_template("/r", &vec![], &tomls) {
        TemplatePage::Html(h) => assert_eq!(h, "2|3|"),
        _ => panic!("template should render"),
    }
}
